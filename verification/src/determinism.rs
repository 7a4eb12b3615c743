//! One text, one reading: the token stream of a text is unique, a text that
//! fails to lex has none, and so what a text parses to is unique.
use vstd::prelude::*;
use crate::ast::{ArgumentV, BlankLineV, CommentV, ConfigItemV, Position};
use crate::error::{ParseError, ParseErrorV};
use crate::parser::{
    DirectiveHead, after_terminator, argument_of, comment_at, is_name_kind, kind_value,
    line_end_ws, lemma_skip_nl, parses_to, skip_nl, spec_arguments, spec_directive, spec_items,
    spec_parse_tokens, spec_raw_block,
};
use crate::lexer::{
    Token, TokenKind, all_blank, spec_display_name, at_position, blank_to_eol, is_blank, is_delim, lex_fails, lexed,
    fails_at, quoted_body, token_at_ok, token_here,
    token_text_ok, tokens_text, unterminated,
};

verus! {

// ---------------------------------------------------------------------------
// One token
// ---------------------------------------------------------------------------

/// A token's text is empty only at the end of the file, and never starts
/// with a blank
proof fn lemma_token_text_shape(kind: TokenKind, raw: Seq<char>, rest: Seq<char>)
    requires
        token_text_ok(kind, raw, rest),
    ensures
        raw.len() == 0 <==> kind is Eof,
        raw.len() > 0 ==> !is_blank(raw[0]),
{
    match kind {
        TokenKind::Ident(_) | TokenKind::Argument(_) | TokenKind::Variable(_) => {
            assert(!is_delim(raw[0]));
        },
        _ => {},
    }
}

/// Positions are determined by the text and the index
proof fn lemma_position_unique(src: Seq<char>, i: int, p1: Position, p2: Position)
    requires
        at_position(p1, src, i),
        at_position(p2, src, i),
    ensures
        p1 == p2,
{
}

/// Where `blank_to_eol(r)` holds, the first `m` characters of `r`, if none is a
/// newline, are blanks
proof fn lemma_blank_prefix(r: Seq<char>, m: int)
    requires
        blank_to_eol(r),
        0 <= m <= r.len(),
        forall|i: int| 0 <= i < m ==> r[i] != '\n',
    ensures
        forall|i: int| 0 <= i < m ==> is_blank(#[trigger] r[i]),
    decreases m,
{
    if m > 0 {
        assert(r[0] != '\n');
        lemma_blank_prefix(r.drop_first(), m - 1);
        assert forall|i: int| 0 <= i < m implies is_blank(#[trigger] r[i]) by {
            if i > 0 {
                assert(r[i] == r.drop_first()[i - 1]);
            }
        }
    }
}

/// A quoted body followed by its quote cannot be the start of a longer body,
/// nor of text that never closes the quote
proof fn lemma_body_closes(b: Seq<char>, x: Seq<char>, c: char)
    requires
        c == '"' || c == '\'',
        quoted_body(b, c),
        x.len() > b.len(),
        x.take(b.len() as int) == b,
        x[b.len() as int] == c,
    ensures
        !quoted_body(x, c),
        !unterminated(x, c),
    decreases b.len(),
{
    if b.len() == 0 {
    } else if b[0] == '\\' {
        assert(x[0] == b[0]);
        assert(x[1] == b[1]);
        assert(x.skip(2).take(b.len() - 2) =~= b.skip(2));
        assert(x.skip(2)[b.len() - 2] == x[b.len() as int]);
        lemma_body_closes(b.skip(2), x.skip(2), c);
    } else {
        assert(x[0] == b[0]);
        assert(x.drop_first().take(b.len() - 1) =~= b.drop_first());
        assert(x.drop_first()[b.len() - 1] == x[b.len() as int]);
        lemma_body_closes(b.drop_first(), x.drop_first(), c);
    }
}

/// What `src` holds from index `p` on reads as at most one token: two tokens
/// there are the same
pub proof fn lemma_token_here_unique(src: Seq<char>, t1: Token, t2: Token, p: int)
    requires
        token_here(src, t1, p),
        token_here(src, t2, p),
    ensures
        t1@ == t2@,
{
    let w1 = t1.leading_whitespace@;
    let w2 = t2.leading_whitespace@;
    let r1 = t1.raw@;
    let r2 = t2.raw@;
    let s1 = p + w1.len();
    let s2 = p + w2.len();
    let e1 = s1 + r1.len();
    let e2 = s2 + r2.len();
    lemma_token_text_shape(t1.kind, r1, src.skip(e1));
    lemma_token_text_shape(t2.kind, r2, src.skip(e2));
    assert forall|i: int| 0 <= i < w1.len() implies src[p + i] == w1[i] by {
        assert(src.subrange(p, e1)[i] == (w1 + r1)[i]);
    }
    assert forall|i: int| 0 <= i < r1.len() implies src[s1 + i] == r1[i] by {
        assert(src.subrange(p, e1)[w1.len() + i] == (w1 + r1)[w1.len() + i]);
    }
    assert forall|i: int| 0 <= i < w2.len() implies src[p + i] == w2[i] by {
        assert(src.subrange(p, e2)[i] == (w2 + r2)[i]);
    }
    assert forall|i: int| 0 <= i < r2.len() implies src[s2 + i] == r2[i] by {
        assert(src.subrange(p, e2)[w2.len() + i] == (w2 + r2)[w2.len() + i]);
    }
    // The blanks before a token are all the blanks there
    if w1.len() < w2.len() {
        assert(is_blank(w2[w1.len() as int]));
        if r1.len() == 0 {
            assert(src.skip(e1).len() == 0);
        } else {
            assert(src[s1] == r1[0]);
        }
    }
    if w2.len() < w1.len() {
        assert(is_blank(w1[w2.len() as int]));
        if r2.len() == 0 {
            assert(src.skip(e2).len() == 0);
        } else {
            assert(src[s2] == r2[0]);
        }
    }
    assert(w1.len() == w2.len());
    assert(w1 =~= w2) by {
        assert forall|i: int| 0 <= i < w1.len() implies w1[i] == w2[i] by {
            assert(src[p + i] == w1[i]);
        }
    }
    let s = s1;
    // The token's text
    if r1.len() == 0 || r2.len() == 0 {
        if r1.len() == 0 {
            assert(src.skip(e1).len() == 0);
        }
        if r2.len() == 0 {
            assert(src.skip(e2).len() == 0);
        }
        assert(r1.len() == 0 && r2.len() == 0);
        assert(r1 =~= r2);
    } else {
        let c = src[s];
        assert(r1[0] == c && r2[0] == c);
        lemma_text_not_shorter(src, t1.kind, t2.kind, s, r1, r2);
        lemma_text_not_shorter(src, t2.kind, t1.kind, s, r2, r1);
        assert(r1 =~= r2) by {
            assert forall|i: int| 0 <= i < r1.len() implies r1[i] == r2[i] by {
                assert(src[s + i] == r1[i]);
            }
        }
    }
    lemma_kind_of_text(t1.kind, t2.kind, r1, src.skip(e1));
    lemma_position_unique(src, s, t1.span.start, t2.span.start);
    lemma_position_unique(src, e1, t1.span.end, t2.span.end);
}

/// Of two tokens that start at `s` in `src`, the one with text `r1` is not
/// shorter than the one with text `r2`
proof fn lemma_text_not_shorter(
    src: Seq<char>,
    k1: TokenKind,
    k2: TokenKind,
    s: int,
    r1: Seq<char>,
    r2: Seq<char>,
)
    requires
        0 <= s,
        s + r1.len() <= src.len(),
        s + r2.len() <= src.len(),
        0 < r1.len(),
        0 < r2.len(),
        forall|i: int| 0 <= i < r1.len() ==> src[s + i] == r1[i],
        forall|i: int| 0 <= i < r2.len() ==> src[s + i] == r2[i],
        token_text_ok(k1, r1, src.skip(s + r1.len())),
        token_text_ok(k2, r2, src.skip(s + r2.len())),
    ensures
        r1.len() >= r2.len(),
{
    if r1.len() < r2.len() {
        lemma_shorter_text(src, k1, k2, s, r1, r2);
    }
}

/// The case of a shorter `r1`, which each kind of token rules out: a word
/// ends at a delimiter, a comment at the last non-blank before the line's
/// end, and a quoted string at its first unescaped quote
proof fn lemma_shorter_text(
    src: Seq<char>,
    k1: TokenKind,
    k2: TokenKind,
    s: int,
    r1: Seq<char>,
    r2: Seq<char>,
)
    requires
        0 <= s,
        s + r2.len() <= src.len(),
        0 < r1.len() < r2.len(),
        forall|i: int| 0 <= i < r1.len() ==> src[s + i] == r1[i],
        forall|i: int| 0 <= i < r2.len() ==> src[s + i] == r2[i],
        token_text_ok(k1, r1, src.skip(s + r1.len())),
        token_text_ok(k2, r2, src.skip(s + r2.len())),
    ensures
        r1.len() >= r2.len(),
{
    let c = src[s];
    assert(r1[0] == c && r2[0] == c);
    let n1 = r1.len() as int;
    let rest1 = src.skip(s + n1);
    assert(rest1[0] == src[s + n1]);
    assert(src[s + n1] == r2[n1]);
    match k1 {
        TokenKind::Ident(_) | TokenKind::Argument(_) | TokenKind::Variable(_) => {
            assert(!is_delim(c));
            match k2 {
                TokenKind::Ident(_) | TokenKind::Argument(_) | TokenKind::Variable(_) => {
                    assert(is_delim(rest1[0]));
                    assert(!is_delim(r2[n1]));
                },
                TokenKind::Comment(_) => {},
                TokenKind::DoubleQuotedString(_) | TokenKind::SingleQuotedString(_) => {},
                _ => {},
            }
        },
        TokenKind::Comment(_) => {
            match k2 {
                TokenKind::Comment(_) => {
                    let m = r2.len() - n1;
                    assert forall|i: int| 0 <= i < m implies rest1[i] != '\n' by {
                        assert(rest1[i] == src[s + n1 + i]);
                        assert(src[s + n1 + i] == r2[n1 + i]);
                    }
                    lemma_blank_prefix(rest1, m);
                    assert(rest1[m - 1] == r2[r2.len() - 1]);
                },
                TokenKind::Ident(_) | TokenKind::Argument(_) | TokenKind::Variable(_) => {},
                _ => {},
            }
        },
        TokenKind::DoubleQuotedString(_) | TokenKind::SingleQuotedString(_) => {
            match k2 {
                TokenKind::DoubleQuotedString(_) | TokenKind::SingleQuotedString(_) => {
                    let b1 = r1.subrange(1, n1 - 1);
                    let b2 = r2.subrange(1, r2.len() - 1);
                    assert(b2.take(b1.len() as int) =~= b1) by {
                        assert forall|i: int| 0 <= i < b1.len() implies b2[i] == b1[i] by {
                            assert(b2[i] == r2[i + 1]);
                            assert(src[s + i + 1] == r2[i + 1]);
                            assert(src[s + i + 1] == r1[i + 1]);
                        }
                    }
                    assert(b2[b1.len() as int] == r2[n1 - 1]);
                    assert(src[s + n1 - 1] == r1[n1 - 1]);
                    lemma_body_closes(b1, b2, c);
                },
                TokenKind::Ident(_) | TokenKind::Argument(_) | TokenKind::Variable(_) => {},
                _ => {},
            }
        },
        _ => {
            match k2 {
                TokenKind::Ident(_) | TokenKind::Argument(_) | TokenKind::Variable(_) => {
                    assert(!is_delim(r2[0]));
                },
                _ => {},
            }
        },
    }
}

/// A token's kind and value follow from its text
proof fn lemma_kind_of_text(k1: TokenKind, k2: TokenKind, raw: Seq<char>, rest: Seq<char>)
    requires
        token_text_ok(k1, raw, rest),
        token_text_ok(k2, raw, rest),
    ensures
        k1@ == k2@,
{
    lemma_token_text_shape(k1, raw, rest);
    lemma_token_text_shape(k2, raw, rest);
    if raw.len() > 0 {
        let c = raw[0];
        assert(word_kind(k1) ==> !is_delim(c));
        assert(word_kind(k2) ==> !is_delim(c));
        assert(kind_tag(k1) == kind_tag(k2));
        match k1 {
            TokenKind::Ident(v1) => match k2 {
                TokenKind::Ident(v2) => assert(v1@ == v2@),
                _ => {},
            },
            TokenKind::Argument(v1) => match k2 {
                TokenKind::Argument(v2) => assert(v1@ == v2@),
                _ => {},
            },
            TokenKind::Variable(v1) => match k2 {
                TokenKind::Variable(v2) => assert(v1@ == v2@),
                _ => {},
            },
            TokenKind::Comment(v1) => match k2 {
                TokenKind::Comment(v2) => assert(v1@ == v2@),
                _ => {},
            },
            TokenKind::DoubleQuotedString(v1) => match k2 {
                TokenKind::DoubleQuotedString(v2) => assert(v1@ == v2@),
                _ => {},
            },
            TokenKind::SingleQuotedString(v1) => match k2 {
                TokenKind::SingleQuotedString(v2) => assert(v1@ == v2@),
                _ => {},
            },
            _ => {},
        }
    }
}

/// Kinds of bare words
spec fn word_kind(k: TokenKind) -> bool {
    k is Ident || k is Argument || k is Variable
}

/// The variant of a kind, as a number
spec fn kind_tag(k: TokenKind) -> int {
    match k {
        TokenKind::Ident(_) => 0,
        TokenKind::Argument(_) => 1,
        TokenKind::SingleQuotedString(_) => 2,
        TokenKind::DoubleQuotedString(_) => 3,
        TokenKind::Variable(_) => 4,
        TokenKind::Comment(_) => 5,
        TokenKind::Semicolon => 6,
        TokenKind::OpenBrace => 7,
        TokenKind::CloseBrace => 8,
        TokenKind::Newline => 9,
        TokenKind::Eof => 10,
    }
}

// ---------------------------------------------------------------------------
// Token streams
// ---------------------------------------------------------------------------

/// The text of the first `n + 1` tokens is that of the first `n`, then the
/// blanks and the text of token `n`
proof fn lemma_text_len_step(toks: Seq<Token>, n: int)
    requires
        0 <= n < toks.len(),
    ensures
        tokens_text(toks.take(n + 1)).len() == tokens_text(toks.take(n)).len()
            + toks[n].leading_whitespace@.len() + toks[n].raw@.len(),
{
    assert(toks.take(n + 1).drop_last() =~= toks.take(n));
}

/// Two token sequences that both read `src` token by token agree on their
/// first `n` tokens
proof fn lemma_agree(src: Seq<char>, a: Seq<Token>, b: Seq<Token>, n: int)
    requires
        0 <= n <= a.len(),
        n <= b.len(),
        forall|k: int| 0 <= k < n ==> token_at_ok(src, a, k),
        forall|k: int| 0 <= k < n ==> token_at_ok(src, b, k),
    ensures
        forall|k: int| 0 <= k < n ==> #[trigger] a[k]@ == b[k]@,
        tokens_text(a.take(n)).len() == tokens_text(b.take(n)).len(),
    decreases n,
{
    if n == 0 {
        assert(a.take(0) =~= Seq::<Token>::empty());
        assert(b.take(0) =~= Seq::<Token>::empty());
    } else {
        lemma_agree(src, a, b, n - 1);
        assert(token_at_ok(src, a, n - 1));
        assert(token_at_ok(src, b, n - 1));
        lemma_token_here_unique(src, a[n - 1], b[n - 1], tokens_text(a.take(n - 1)).len() as int);
        lemma_text_len_step(a, n - 1);
        lemma_text_len_step(b, n - 1);
    }
}

/// Every token of a stream that reads `src` is in its place, and only the
/// last is the end of the file
proof fn lemma_lexed_tokens(src: Seq<char>, toks: Seq<Token>)
    requires
        lexed(src, toks),
    ensures
        forall|k: int| 0 <= k < toks.len() ==> token_at_ok(src, toks, k),
        forall|k: int| 0 <= k < toks.len() - 1 ==> !(#[trigger] toks[k].kind is Eof),
{
    let d = toks.drop_last();
    assert forall|k: int| 0 <= k < toks.len() implies token_at_ok(src, toks, k) by {
        if k < toks.len() - 1 {
            assert(token_at_ok(src, d, k));
            assert(d.take(k) =~= toks.take(k));
            assert(d[k] == toks[k]);
        }
    }
    assert forall|k: int| 0 <= k < toks.len() - 1 implies !(#[trigger] toks[k].kind is Eof) by {
        assert(d[k] == toks[k]);
        assert(!(d[k].kind is Eof));
    }
}

/// The token stream of a text is unique: two streams that read the same text
/// have the same tokens, alike in kind, value, text, leading blanks and span
pub proof fn lemma_lexing_unique(src: Seq<char>, a: Seq<Token>, b: Seq<Token>)
    requires
        lexed(src, a),
        lexed(src, b),
    ensures
        a.len() == b.len(),
        forall|k: int| 0 <= k < a.len() ==> #[trigger] a[k]@ == b[k]@,
{
    lemma_lexed_tokens(src, a);
    lemma_lexed_tokens(src, b);
    let n = if a.len() < b.len() { a.len() as int } else { b.len() as int };
    lemma_agree(src, a, b, n);
    if a.len() < b.len() {
        let k = a.len() - 1;
        assert(a[k]@ == b[k]@);
        assert(a[k].kind is Eof);
        assert(b[k].kind@ is Eof);
        assert(!(b[k].kind is Eof));
    }
    if b.len() < a.len() {
        let k = b.len() - 1;
        assert(a[k]@ == b[k]@);
        assert(b[k].kind is Eof);
        assert(a[k].kind@ is Eof);
        assert(!(a[k].kind is Eof));
    }
}

/// No token can start at `p` when `src` holds there some blanks and then a
/// quote that is never closed
proof fn lemma_no_token_at_open_quote(src: Seq<char>, t: Token, p: int, q: int)
    requires
        0 <= p <= q < src.len(),
        all_blank(src.subrange(p, q)),
        src[q] == '"' || src[q] == '\'',
        unterminated(src.skip(q + 1), src[q]),
    ensures
        !token_here(src, t, p),
{
    if token_here(src, t, p) {
        let w = t.leading_whitespace@;
        let r = t.raw@;
        let st = p + w.len();
        let e = st + r.len();
        let c = src[q];
        lemma_token_text_shape(t.kind, r, src.skip(e));
        assert forall|i: int| 0 <= i < w.len() implies src[p + i] == w[i] by {
            assert(src.subrange(p, e)[i] == (w + r)[i]);
        }
        assert forall|i: int| 0 <= i < r.len() implies src[st + i] == r[i] by {
            assert(src.subrange(p, e)[w.len() + i] == (w + r)[w.len() + i]);
        }
        if st > q {
            assert(is_blank(w[q - p]));
            assert(src[p + (q - p)] == w[q - p]);
        } else if r.len() == 0 {
            assert(src.skip(e).len() == 0);
        } else if st < q {
            assert(src.subrange(p, q)[st - p] == src[st]);
            assert(src[st] == r[0]);
        } else {
            assert(r[0] == c);
            match t.kind {
                TokenKind::DoubleQuotedString(_) | TokenKind::SingleQuotedString(_) => {
                    let b = r.subrange(1, r.len() - 1);
                    let x = src.skip(q + 1);
                    assert(x.take(b.len() as int) =~= b) by {
                        assert forall|i: int| 0 <= i < b.len() implies x[i] == b[i] by {
                            assert(src[st + i + 1] == r[i + 1]);
                        }
                    }
                    assert(src[st + r.len() - 1] == r[r.len() - 1]);
                    assert(x[b.len() as int] == c);
                    lemma_body_closes(b, x, c);
                },
                TokenKind::Ident(_) | TokenKind::Argument(_) | TokenKind::Variable(_) => {},
                _ => {},
            }
        }
    }
}

/// A text that fails to lex has no token stream
pub proof fn lemma_lex_fails_excludes_lexed(src: Seq<char>, e: ParseError, toks: Seq<Token>)
    requires
        lex_fails(src, e),
    ensures
        !lexed(src, toks),
{
    if lexed(src, toks) {
        let (f, q) = choose|f: Seq<Token>, q: int| #[trigger] fails_at(src, f, q, e);
        lemma_lexed_tokens(src, toks);
        let m = f.len() as int;
        let n = toks.len() as int;
        if m >= n {
            lemma_agree(src, f, toks, n);
            assert(f[n - 1]@ == toks[n - 1]@);
            assert(toks[n - 1].kind is Eof);
            assert(f[n - 1].kind@ is Eof);
            assert(!(f[n - 1].kind is Eof));
        } else {
            lemma_agree(src, f, toks, m);
            assert(f.take(m) =~= f);
            let p = tokens_text(f).len() as int;
            assert(token_at_ok(src, toks, m));
            lemma_no_token_at_open_quote(src, toks[m], p, q);
        }
    }
}

/// A text that fails to lex fails with one error: the one at its first
/// quote that is never closed
pub proof fn lemma_lex_error_unique(src: Seq<char>, e1: ParseError, e2: ParseError)
    requires
        lex_fails(src, e1),
        lex_fails(src, e2),
    ensures
        e1 == e2,
{
    let (f1, q1) = choose|f: Seq<Token>, q: int| #[trigger] fails_at(src, f, q, e1);
    let (f2, q2) = choose|f: Seq<Token>, q: int| #[trigger] fails_at(src, f, q, e2);
    let m1 = f1.len() as int;
    let m2 = f2.len() as int;
    if m1 < m2 {
        lemma_agree(src, f1, f2, m1);
        assert(f1.take(m1) =~= f1);
        assert(token_at_ok(src, f2, m1));
        lemma_no_token_at_open_quote(src, f2[m1], tokens_text(f1).len() as int, q1);
    }
    if m2 < m1 {
        lemma_agree(src, f2, f1, m2);
        assert(f2.take(m2) =~= f2);
        assert(token_at_ok(src, f1, m2));
        lemma_no_token_at_open_quote(src, f1[m2], tokens_text(f2).len() as int, q2);
    }
    lemma_agree(src, f1, f2, m1);
    assert(f1.take(m1) =~= f1);
    assert(f2.take(m1) =~= f2);
    let p = tokens_text(f1).len() as int;
    if q1 < q2 {
        assert(src.subrange(p, q2)[q1 - p] == src[q1]);
    }
    if q2 < q1 {
        assert(src.subrange(p, q1)[q2 - p] == src[q2]);
    }
    lemma_position_unique(src, q1, e1->UnterminatedString_position, e2->UnterminatedString_position);
}

// ---------------------------------------------------------------------------
// Parsing
// ---------------------------------------------------------------------------

/// Two token streams alike token by token
pub open spec fn same_tokens(a: Seq<Token>, b: Seq<Token>) -> bool {
    &&& a.len() == b.len()
    &&& forall|k: int| 0 <= k < a.len() ==> #[trigger] a[k]@ == b[k]@
}

/// Alike tokens look alike to the grammar
proof fn lemma_same_token(a: Token, b: Token)
    requires
        a@ == b@,
    ensures
        kind_tag(a.kind) == kind_tag(b.kind),
        kind_value(a.kind) == kind_value(b.kind),
        is_name_kind(a.kind) == is_name_kind(b.kind),
        spec_display_name(a.kind) == spec_display_name(b.kind),
        argument_of(a) == argument_of(b),
{
    match a.kind {
        TokenKind::Ident(v) => match b.kind {
            TokenKind::Ident(w) => assert(v@ == w@),
            _ => {},
        },
        TokenKind::Argument(v) => match b.kind {
            TokenKind::Argument(w) => assert(v@ == w@),
            _ => {},
        },
        TokenKind::SingleQuotedString(v) => match b.kind {
            TokenKind::SingleQuotedString(w) => assert(v@ == w@),
            _ => {},
        },
        TokenKind::DoubleQuotedString(v) => match b.kind {
            TokenKind::DoubleQuotedString(w) => assert(v@ == w@),
            _ => {},
        },
        TokenKind::Variable(v) => match b.kind {
            TokenKind::Variable(w) => assert(v@ == w@),
            _ => {},
        },
        TokenKind::Comment(v) => match b.kind {
            TokenKind::Comment(w) => assert(v@ == w@),
            _ => {},
        },
        _ => {},
    }
}

proof fn lemma_same_at(a: Seq<Token>, b: Seq<Token>, k: int)
    requires
        same_tokens(a, b),
        0 <= k < a.len(),
    ensures
        a[k]@ == b[k]@,
        a[k].span == b[k].span,
        a[k].leading_whitespace@ == b[k].leading_whitespace@,
        a[k].raw@ == b[k].raw@,
        kind_tag(a[k].kind) == kind_tag(b[k].kind),
        kind_value(a[k].kind) == kind_value(b[k].kind),
        is_name_kind(a[k].kind) == is_name_kind(b[k].kind),
        spec_display_name(a[k].kind) == spec_display_name(b[k].kind),
        argument_of(a[k]) == argument_of(b[k]),
{
    lemma_same_token(a[k], b[k]);
}

proof fn lemma_skip_nl_same(a: Seq<Token>, b: Seq<Token>, pos: int)
    requires
        same_tokens(a, b),
    ensures
        skip_nl(a, pos) == skip_nl(b, pos),
    decreases a.len() - pos,
{
    if 0 <= pos < a.len() {
        lemma_same_at(a, b, pos);
        lemma_skip_nl_same(a, b, pos + 1);
    }
}

proof fn lemma_line_end_same(a: Seq<Token>, b: Seq<Token>, pos: int)
    requires
        same_tokens(a, b),
    ensures
        line_end_ws(a, pos) == line_end_ws(b, pos),
        0 <= pos < a.len() ==> comment_at(a, pos) == comment_at(b, pos),
        forall|tc: Option<CommentV>| #[trigger] after_terminator(a, pos, tc) == after_terminator(b, pos, tc),
{
    if 0 <= pos < a.len() {
        lemma_same_at(a, b, pos);
    }
    if 0 <= pos + 1 < a.len() {
        lemma_same_at(a, b, pos + 1);
    }
}

proof fn lemma_raw_block_same(a: Seq<Token>, b: Seq<Token>, pos: int, content: Seq<char>, depth: nat)
    requires
        same_tokens(a, b),
    ensures
        spec_raw_block(a, pos, content, depth) == spec_raw_block(b, pos, content, depth),
    decreases a.len() - pos,
{
    if 0 <= pos < a.len() {
        lemma_same_at(a, b, pos);
        if pos + 1 < a.len() {
            lemma_same_at(a, b, pos + 1);
        }
        let t = a[pos];
        let c2 = content + t.raw@;
        lemma_raw_block_same(a, b, pos + 1, content.push('{'), depth + 1);
        lemma_raw_block_same(a, b, pos + 1, content.push('\n'), depth);
        lemma_raw_block_same(a, b, pos + 1, c2.push(' '), depth);
        lemma_raw_block_same(a, b, pos + 1, c2, depth);
        if depth > 1 {
            lemma_raw_block_same(a, b, pos + 1, content.push('}'), (depth - 1) as nat);
        }
    }
}

proof fn lemma_items_same(
    a: Seq<Token>,
    b: Seq<Token>,
    pos: int,
    in_block: bool,
    consec: nat,
    acc: Seq<ConfigItemV>,
)
    requires
        same_tokens(a, b),
    ensures
        spec_items(a, pos, in_block, consec, acc) == spec_items(b, pos, in_block, consec, acc),
    decreases a.len() - pos, 1int,
{
    if 0 <= pos < a.len() {
        lemma_same_at(a, b, pos);
        lemma_line_end_same(a, b, pos);
        let t = a[pos];
        let acc2 = if consec + 1 > 1 && acc.len() > 0 {
            acc.push(
                ConfigItemV::BlankLine(
                    BlankLineV { span: t.span, content: t.leading_whitespace@ },
                ),
            )
        } else {
            acc
        };
        lemma_items_same(a, b, pos + 1, in_block, consec + 1, acc2);
        lemma_items_same(
            a,
            b,
            pos + 1,
            in_block,
            0,
            acc.push(ConfigItemV::Comment(comment_at(a, pos))),
        );
        lemma_directive_same(a, b, pos);
        match spec_directive(a, pos) {
            Ok((d, p2)) => if pos < p2 <= a.len() {
                lemma_items_same(a, b, p2, in_block, 0, acc.push(ConfigItemV::Directive(d)));
            },
            Err(_) => {},
        }
    }
}

proof fn lemma_directive_same(a: Seq<Token>, b: Seq<Token>, pos: int)
    requires
        same_tokens(a, b),
    ensures
        spec_directive(a, pos) == spec_directive(b, pos),
    decreases a.len() - pos, 0int,
{
    if 0 <= pos < a.len() {
        lemma_same_at(a, b, pos);
        let t = a[pos];
        lemma_arguments_same(
            a,
            b,
            pos + 1,
            DirectiveHead {
                name: kind_value(t.kind),
                name_span: t.span,
                start: t.span.start,
                leading_whitespace: t.leading_whitespace@,
            },
            seq![],
            None,
        );
    }
}

proof fn lemma_arguments_same(
    a: Seq<Token>,
    b: Seq<Token>,
    pos: int,
    h: DirectiveHead,
    args: Seq<ArgumentV>,
    tc: Option<CommentV>,
)
    requires
        same_tokens(a, b),
    ensures
        spec_arguments(a, pos, h, args, tc) == spec_arguments(b, pos, h, args, tc),
    decreases a.len() - pos, 2int,
{
    lemma_skip_nl_same(a, b, pos);
    lemma_skip_nl(a, pos);
    let q = skip_nl(a, pos);
    if 0 <= pos && 0 <= q < a.len() {
        lemma_same_at(a, b, q);
        let t = a[q];
        lemma_line_end_same(a, b, q + 1);
        match spec_raw_block(a, q + 1, seq![], 1) {
            Some((content, bend, p3)) => {
                lemma_line_end_same(a, b, p3);
            },
            None => {},
        }
        lemma_raw_block_same(a, b, q + 1, seq![], 1);
        lemma_skip_nl_same(a, b, q + 1);
        lemma_skip_nl(a, q + 1);
        let p1 = skip_nl(a, q + 1);
        if pos < p1 <= a.len() {
            lemma_items_same(a, b, p1, true, 0, seq![]);
            match spec_items(a, p1, true, 0, seq![]) {
                Ok((items, p2)) => {
                    if 0 <= p2 < a.len() {
                        lemma_same_at(a, b, p2);
                    }
                    lemma_line_end_same(a, b, p2 + 1);
                },
                Err(_) => {},
            }
        }
        if q + 1 > pos {
            lemma_arguments_same(a, b, q + 1, h, args, Some(comment_at(a, q)));
            lemma_arguments_same(a, b, q + 1, h, args.push(argument_of(t)), tc);
        }
    }
}

/// Alike token streams parse alike
pub proof fn lemma_parse_same(a: Seq<Token>, b: Seq<Token>)
    requires
        same_tokens(a, b),
    ensures
        spec_parse_tokens(a) == spec_parse_tokens(b),
{
    lemma_items_same(a, b, 0, false, 0, seq![]);
}

/// What a text parses to is unique: its items, or one error
pub proof fn lemma_parse_unique(
    src: Seq<char>,
    r1: Result<Seq<ConfigItemV>, ParseErrorV>,
    r2: Result<Seq<ConfigItemV>, ParseErrorV>,
)
    requires
        parses_to(src, r1),
        parses_to(src, r2),
    ensures
        r1 == r2,
{
    let a = choose|toks: Seq<Token>| lexed(src, toks) && #[trigger] spec_parse_tokens(toks) == r1;
    let b = choose|toks: Seq<Token>| lexed(src, toks) && #[trigger] spec_parse_tokens(toks) == r2;
    lemma_lexing_unique(src, a, b);
    lemma_parse_same(a, b);
}

/// A text that fails to lex parses to nothing
pub proof fn lemma_lex_fails_excludes_parse(
    src: Seq<char>,
    e: ParseError,
    r: Result<Seq<ConfigItemV>, ParseErrorV>,
)
    requires
        lex_fails(src, e),
    ensures
        !parses_to(src, r),
{
    if parses_to(src, r) {
        let a = choose|toks: Seq<Token>| lexed(src, toks) && #[trigger] spec_parse_tokens(toks) == r;
        lemma_lex_fails_excludes_lexed(src, e, a);
    }
}

} // verus!
