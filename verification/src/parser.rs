//! Parser for nginx configuration files.
//!
//! It accepts any directive name, so that directives of extension modules
//! (ngx_headers_more, lua-nginx-module and the like) can be linted too.
use vstd::prelude::*;
use crate::ast::{
    Config, args_view, directive_view, item_view, items_view, opt_comment_view, Argument, ArgumentKind,
    ArgumentV, ArgumentValue, BlankLine, BlankLineV, Block, BlockV, Comment, CommentV, ConfigItem,
    ConfigItemV, Directive, DirectiveV, Position, Span,
};
use crate::error::{ParseError, ParseErrorV};
use crate::lexer::{Token, TokenKind, tokenize, lexed, lex_fails, utf8_len, spec_display_name};
use crate::text::{ends_with, str_eq, trim_chars, trim_seq, ends_with_seq, chars_of, push_char};

verus! {

// ---------------------------------------------------------------------------
// The grammar, over a token stream
// ---------------------------------------------------------------------------

/// A token stream as the lexer makes it: one end of file, at the end
pub open spec fn wf_tokens(toks: Seq<Token>) -> bool {
    &&& toks.len() > 0
    &&& toks.last().kind is Eof
    &&& forall|k: int| 0 <= k < toks.len() - 1 ==> !(#[trigger] toks[k].kind is Eof)
}

/// Kinds that can name a directive
pub open spec fn is_name_kind(k: TokenKind) -> bool {
    k is Ident || k is Argument || k is SingleQuotedString || k is DoubleQuotedString
}

/// The value a token carries (empty for punctuation)
pub open spec fn kind_value(k: TokenKind) -> Seq<char> {
    match k {
        TokenKind::Ident(v) => v@,
        TokenKind::Argument(v) => v@,
        TokenKind::SingleQuotedString(v) => v@,
        TokenKind::DoubleQuotedString(v) => v@,
        TokenKind::Variable(v) => v@,
        TokenKind::Comment(v) => v@,
        _ => seq![],
    }
}

/// The first position at or after `pos` that does not hold a newline
pub open spec fn skip_nl(toks: Seq<Token>, pos: int) -> int
    decreases toks.len() - pos,
{
    if 0 <= pos < toks.len() && toks[pos].kind is Newline {
        skip_nl(toks, pos + 1)
    } else {
        pos
    }
}

/// The blanks that end a line at `pos` (those before the newline or end of file there)
pub open spec fn line_end_ws(toks: Seq<Token>, pos: int) -> Seq<char> {
    if 0 <= pos < toks.len() && (toks[pos].kind is Newline || toks[pos].kind is Eof) {
        toks[pos].leading_whitespace@
    } else {
        seq![]
    }
}

/// The comment whose token is at `pos`
pub open spec fn comment_at(toks: Seq<Token>, pos: int) -> CommentV {
    CommentV {
        text: kind_value(toks[pos].kind),
        span: toks[pos].span,
        leading_whitespace: toks[pos].leading_whitespace@,
        trailing_whitespace: line_end_ws(toks, pos + 1),
    }
}

/// After a `;` or `}` at `pos - 1`: the trailing comment (a comment right there,
/// or the one met among the arguments), the blanks to the end of the line, and
/// where parsing goes on
pub open spec fn after_terminator(toks: Seq<Token>, pos: int, tc: Option<CommentV>) -> (
    Option<CommentV>,
    Seq<char>,
    int,
) {
    if 0 <= pos < toks.len() && toks[pos].kind is Comment {
        (Some(comment_at(toks, pos)), seq![], pos + 1)
    } else {
        (tc, line_end_ws(toks, pos), pos)
    }
}

/// `_by_lua_block`
pub open spec fn raw_block_suffix() -> Seq<char> {
    seq!['_', 'b', 'y', '_', 'l', 'u', 'a', '_', 'b', 'l', 'o', 'c', 'k']
}

/// A directive whose block holds code (Lua) rather than nginx syntax
pub open spec fn spec_is_raw_block_directive(name: Seq<char>) -> bool {
    ends_with_seq(name, raw_block_suffix())
}

/// The argument whose token is `t`
pub open spec fn argument_of(t: Token) -> ArgumentV {
    ArgumentV {
        kind: match t.kind {
            TokenKind::DoubleQuotedString(_) => ArgumentKind::QuotedString,
            TokenKind::SingleQuotedString(_) => ArgumentKind::SingleQuotedString,
            TokenKind::Variable(_) => ArgumentKind::Variable,
            _ => ArgumentKind::Literal,
        },
        value: kind_value(t.kind),
        span: t.span,
        raw: t.raw@,
    }
}

pub open spec fn is_argument_kind(k: TokenKind) -> bool {
    is_name_kind(k) || k is Variable
}

/// What a directive's first token gives it
pub ghost struct DirectiveHead {
    pub name: Seq<char>,
    pub name_span: Span,
    pub start: Position,
    pub leading_whitespace: Seq<char>,
}

/// Position used where the grammar never arrives
pub open spec fn nowhere() -> Position {
    Position { line: 0, column: 0, offset: 0 }
}

/// The text of a raw block from `pos` on, at brace depth `depth`: each token's
/// text, `{` and `}` for nested braces, a newline for each newline, and a blank
/// after a token that is followed by one that is not a newline, the end, `}` or `;`.
/// Gives the text, the position after the closing `}` and where parsing goes on,
/// or nothing when the file ends first.
pub open spec fn spec_raw_block(toks: Seq<Token>, pos: int, content: Seq<char>, depth: nat) -> Option<
    (Seq<char>, Position, int),
>
    decreases toks.len() - pos,
{
    if !(0 <= pos < toks.len()) {
        None
    } else {
        let t = toks[pos];
        match t.kind {
            TokenKind::OpenBrace => spec_raw_block(toks, pos + 1, content.push('{'), depth + 1),
            TokenKind::CloseBrace => if depth <= 1 {
                Some((content, t.span.end, pos + 1))
            } else {
                spec_raw_block(toks, pos + 1, content.push('}'), (depth - 1) as nat)
            },
            TokenKind::Eof => None,
            TokenKind::Newline => spec_raw_block(toks, pos + 1, content.push('\n'), depth),
            _ => {
                let c2 = content + t.raw@;
                if pos + 1 < toks.len() && !(toks[pos + 1].kind is Newline || toks[pos
                    + 1].kind is Eof || toks[pos + 1].kind is CloseBrace || toks[pos
                    + 1].kind is Semicolon) {
                    spec_raw_block(toks, pos + 1, c2.push(' '), depth)
                } else {
                    spec_raw_block(toks, pos + 1, c2, depth)
                }
            },
        }
    }
}

/// Brace depth after the tokens `toks[s..k]`, from depth `d` at `s`
pub open spec fn depth_after(toks: Seq<Token>, s: int, k: int, d: int) -> int
    decreases k - s,
{
    if k <= s {
        d
    } else {
        let d0 = depth_after(toks, s, k - 1, d);
        match toks[k - 1].kind {
            TokenKind::OpenBrace => d0 + 1,
            TokenKind::CloseBrace => d0 - 1,
            _ => d0,
        }
    }
}

/// What token `k` adds to the text of a raw block: a brace or a newline as
/// itself, any other token its source text, then a blank when a token that
/// is not a newline, the end, `}` or `;` follows
pub open spec fn raw_piece(toks: Seq<Token>, k: int) -> Seq<char> {
    match toks[k].kind {
        TokenKind::OpenBrace => seq!['{'],
        TokenKind::CloseBrace => seq!['}'],
        TokenKind::Newline => seq!['\n'],
        _ => if k + 1 < toks.len() && !(toks[k + 1].kind is Newline || toks[k + 1].kind is Eof
            || toks[k + 1].kind is CloseBrace || toks[k + 1].kind is Semicolon) {
            toks[k].raw@.push(' ')
        } else {
            toks[k].raw@
        },
    }
}

/// The text that the tokens `toks[s..k]` make in a raw block, token by token
pub open spec fn raw_text(toks: Seq<Token>, s: int, k: int) -> Seq<char>
    decreases k - s,
{
    if k <= s {
        seq![]
    } else {
        raw_text(toks, s, k - 1) + raw_piece(toks, k - 1)
    }
}

/// No token of `toks[s..k]` ends the file or closes the block opened at
/// depth `d` before `s`
pub open spec fn raw_open_through(toks: Seq<Token>, s: int, k: int, d: int) -> bool {
    forall|j: int|
        s <= j < k ==> !(#[trigger] toks[j].kind is Eof) && !(toks[j].kind is CloseBrace
            && depth_after(toks, s, j, d) <= 1)
}

/// Token `q` is the `}` that closes a raw block whose text starts at `s`,
/// at depth `d`: the first `}` met at depth 1, with no end of file before it
pub open spec fn raw_closes_at(toks: Seq<Token>, s: int, q: int, d: int) -> bool {
    &&& s <= q < toks.len()
    &&& toks[q].kind is CloseBrace
    &&& depth_after(toks, s, q, d) <= 1
    &&& raw_open_through(toks, s, q, d)
}

/// The file ends, at `e`, before a raw block whose text starts at `s` closes
pub open spec fn raw_eof_first(toks: Seq<Token>, s: int, e: int, d: int) -> bool {
    &&& s <= e
    &&& (e >= toks.len() || toks[e].kind is Eof)
    &&& raw_open_through(toks, s, e, d)
}

proof fn lemma_raw_block_walk(toks: Seq<Token>, s: int, pos: int, pre: Seq<char>, d: int)
    requires
        0 <= s <= pos,
        depth_after(toks, s, pos, d) >= 1,
        raw_open_through(toks, s, pos, d),
    ensures
        match spec_raw_block(toks, pos, pre + raw_text(toks, s, pos), depth_after(toks, s, pos, d) as nat) {
            Some((c, end, p)) => {
                &&& raw_closes_at(toks, s, p - 1, d)
                &&& c == pre + raw_text(toks, s, p - 1)
                &&& end == toks[p - 1].span.end
            },
            None => exists|e: int| raw_eof_first(toks, s, e, d),
        },
    decreases toks.len() - pos,
{
    let content = pre + raw_text(toks, s, pos);
    let depth = depth_after(toks, s, pos, d);
    if !(0 <= pos < toks.len()) {
        assert(raw_eof_first(toks, s, pos, d));
    } else {
        let t = toks[pos];
        assert(pre + raw_text(toks, s, pos + 1) =~= content + raw_piece(toks, pos));
        assert(raw_open_through(toks, s, pos + 1, d) || t.kind is Eof || (t.kind is CloseBrace
            && depth <= 1)) by {
            if !(t.kind is Eof || (t.kind is CloseBrace && depth <= 1)) {
                assert forall|j: int| s <= j < pos + 1 implies !(#[trigger] toks[j].kind is Eof)
                    && !(toks[j].kind is CloseBrace && depth_after(toks, s, j, d) <= 1) by {
                    if j < pos {
                        assert(!(toks[j].kind is Eof));
                    }
                }
            }
        }
        match t.kind {
            TokenKind::OpenBrace => {
                assert(content.push('{') =~= content + raw_piece(toks, pos));
                lemma_raw_block_walk(toks, s, pos + 1, pre, d);
            },
            TokenKind::CloseBrace => if depth <= 1 {
                assert(content =~= pre + raw_text(toks, s, pos));
            } else {
                assert(content.push('}') =~= content + raw_piece(toks, pos));
                lemma_raw_block_walk(toks, s, pos + 1, pre, d);
            },
            TokenKind::Eof => {
                assert(raw_eof_first(toks, s, pos, d));
            },
            TokenKind::Newline => {
                assert(content.push('\n') =~= content + raw_piece(toks, pos));
                lemma_raw_block_walk(toks, s, pos + 1, pre, d);
            },
            _ => {
                let c2 = content + t.raw@;
                assert(c2.push(' ') =~= content + t.raw@.push(' '));
                lemma_raw_block_walk(toks, s, pos + 1, pre, d);
            },
        }
    }
}

/// Where a raw block closes and where the file ends first exclude each other
proof fn lemma_raw_close_or_eof(toks: Seq<Token>, s: int, q: int, e: int, d: int)
    requires
        raw_closes_at(toks, s, q, d),
    ensures
        !raw_eof_first(toks, s, e, d),
{
    if !raw_eof_first(toks, s, e, d) {
    } else if q < e {
        assert(!(toks[q].kind is CloseBrace && depth_after(toks, s, q, d) <= 1));
    } else {
        assert(!(toks[e].kind is Eof));
    }
}

/// The text of a raw block opened just before `pos`: the tokens up to the
/// `}` that brings the brace depth back to 0, each as [`raw_piece`] gives
/// it (inner braces and the quotes of strings kept); the end is that `}`'s
/// end, and parsing goes on after it. There is no text exactly when the
/// file ends first.
pub proof fn lemma_raw_block_text(toks: Seq<Token>, pos: int)
    requires
        0 <= pos,
    ensures
        spec_raw_block(toks, pos, seq![], 1) matches Some((c, end, p)) ==> {
            &&& raw_closes_at(toks, pos, p - 1, 1)
            &&& c == raw_text(toks, pos, p - 1)
            &&& end == toks[p - 1].span.end
        },
        spec_raw_block(toks, pos, seq![], 1) is None <==> exists|e: int| raw_eof_first(toks, pos, e, 1),
{
    assert(raw_text(toks, pos, pos) =~= Seq::<char>::empty());
    assert(seq![] + raw_text(toks, pos, pos) =~= Seq::<char>::empty());
    lemma_raw_block_walk(toks, pos, pos, seq![], 1);
    match spec_raw_block(toks, pos, seq![], 1) {
        Some((c, end, p)) => {
            assert(c =~= raw_text(toks, pos, p - 1));
            if exists|e: int| raw_eof_first(toks, pos, e, 1) {
                let e = choose|e: int| raw_eof_first(toks, pos, e, 1);
                lemma_raw_close_or_eof(toks, pos, p - 1, e, 1);
            }
        },
        None => {},
    }
}

pub proof fn lemma_skip_nl(toks: Seq<Token>, pos: int)
    ensures
        skip_nl(toks, pos) >= pos,
        0 <= pos <= toks.len() ==> skip_nl(toks, pos) <= toks.len(),
        0 <= skip_nl(toks, pos) < toks.len() ==> !(toks[skip_nl(toks, pos)].kind is Newline),
    decreases toks.len() - pos,
{
    if 0 <= pos < toks.len() && toks[pos].kind is Newline {
        lemma_skip_nl(toks, pos + 1);
    }
}

/// The items from `pos` on, up to the end of the file (or, in a block, up to `}`).
/// `consec` counts the newlines since the last item and `acc` holds the items so far;
/// a newline that follows another one makes a blank line, but not before the first item.
pub open spec fn spec_items(
    toks: Seq<Token>,
    pos: int,
    in_block: bool,
    consec: nat,
    acc: Seq<ConfigItemV>,
) -> Result<(Seq<ConfigItemV>, int), ParseErrorV>
    decreases toks.len() - pos, 1int,
{
    if !(0 <= pos < toks.len()) {
        Err(ParseErrorV::UnexpectedEof { position: nowhere() })
    } else {
        let t = toks[pos];
        if in_block && t.kind is CloseBrace {
            Ok((acc, pos))
        } else if t.kind is Eof {
            Ok((acc, pos))
        } else {
            match t.kind {
                TokenKind::Newline => {
                    let acc2 = if consec + 1 > 1 && acc.len() > 0 {
                        acc.push(
                            ConfigItemV::BlankLine(
                                BlankLineV { span: t.span, content: t.leading_whitespace@ },
                            ),
                        )
                    } else {
                        acc
                    };
                    spec_items(toks, pos + 1, in_block, consec + 1, acc2)
                },
                TokenKind::Comment(_) => spec_items(
                    toks,
                    pos + 1,
                    in_block,
                    0,
                    acc.push(ConfigItemV::Comment(comment_at(toks, pos))),
                ),
                TokenKind::CloseBrace => Err(
                    ParseErrorV::UnmatchedCloseBrace { position: t.span.start },
                ),
                TokenKind::Variable(_) | TokenKind::Semicolon | TokenKind::OpenBrace => Err(
                    ParseErrorV::UnexpectedToken {
                        expected: "directive or comment"@,
                        found: spec_display_name(t.kind),
                        position: t.span.start,
                    },
                ),
                _ => match spec_directive(toks, pos) {
                    Ok((d, p2)) => if pos < p2 <= toks.len() {
                        spec_items(toks, p2, in_block, 0, acc.push(ConfigItemV::Directive(d)))
                    } else {
                        Err(ParseErrorV::UnexpectedEof { position: nowhere() })
                    },
                    Err(e) => Err(e),
                },
            }
        }
    }
}

/// The directive whose name is at `pos`, and where parsing goes on
pub open spec fn spec_directive(toks: Seq<Token>, pos: int) -> Result<(DirectiveV, int), ParseErrorV>
    decreases toks.len() - pos, 0int,
{
    if !(0 <= pos < toks.len()) {
        Err(ParseErrorV::UnexpectedEof { position: nowhere() })
    } else {
        let t = toks[pos];
        if is_name_kind(t.kind) {
            spec_arguments(
                toks,
                pos + 1,
                DirectiveHead {
                    name: kind_value(t.kind),
                    name_span: t.span,
                    start: t.span.start,
                    leading_whitespace: t.leading_whitespace@,
                },
                seq![],
                None,
            )
        } else {
            Err(ParseErrorV::ExpectedDirectiveName { position: t.span.start })
        }
    }
}

/// The rest of a directive from `pos` on: its arguments (`args` so far), then `;`
/// or a block. Newlines between arguments are skipped; a comment among them
/// becomes the trailing comment (`tc`).
pub open spec fn spec_arguments(
    toks: Seq<Token>,
    pos: int,
    h: DirectiveHead,
    args: Seq<ArgumentV>,
    tc: Option<CommentV>,
) -> Result<(DirectiveV, int), ParseErrorV>
    decreases toks.len() - pos, 2int,
{
    let q = skip_nl(toks, pos);
    if !(0 <= pos && 0 <= q < toks.len()) {
        Err(ParseErrorV::UnexpectedEof { position: nowhere() })
    } else {
        let t = toks[q];
        match t.kind {
            TokenKind::Semicolon => {
                let (tc2, tw, p2) = after_terminator(toks, q + 1, tc);
                Ok(
                    (
                        DirectiveV {
                            name: h.name,
                            name_span: h.name_span,
                            args: args,
                            block: None,
                            span: Span { start: h.start, end: t.span.end },
                            trailing_comment: tc2,
                            leading_whitespace: h.leading_whitespace,
                            space_before_terminator: t.leading_whitespace@,
                            trailing_whitespace: tw,
                        },
                        p2,
                    ),
                )
            },
            TokenKind::OpenBrace => {
                let bstart = t.span.start;
                if spec_is_raw_block_directive(h.name) {
                    match spec_raw_block(toks, q + 1, seq![], 1) {
                        Some((content, bend, p3)) => {
                            let (tc2, btw, p4) = after_terminator(toks, p3, tc);
                            Ok(
                                (
                                    DirectiveV {
                                        name: h.name,
                                        name_span: h.name_span,
                                        args: args,
                                        block: Some(
                                            BlockV {
                                                items: seq![],
                                                span: Span { start: bstart, end: bend },
                                                raw_content: Some(trim_seq(content)),
                                                trailing_whitespace: btw,
                                            },
                                        ),
                                        span: Span { start: h.start, end: bend },
                                        trailing_comment: tc2,
                                        leading_whitespace: h.leading_whitespace,
                                        space_before_terminator: t.leading_whitespace@,
                                        trailing_whitespace: seq![],
                                    },
                                    p4,
                                ),
                            )
                        },
                        None => Err(ParseErrorV::UnclosedBlock { position: bstart }),
                    }
                } else {
                    let dtw = line_end_ws(toks, q + 1);
                    let p1 = skip_nl(toks, q + 1);
                    if !(pos < p1 <= toks.len()) {
                        Err(ParseErrorV::UnexpectedEof { position: nowhere() })
                    } else {
                        match spec_items(toks, p1, true, 0, seq![]) {
                            Err(e) => Err(e),
                            Ok((items, p2)) => if !(0 <= p2 < toks.len() && toks[p2].kind is CloseBrace) {
                                Err(ParseErrorV::UnclosedBlock { position: bstart })
                            } else {
                                let bend = toks[p2].span.end;
                                let (tc2, btw, p3) = after_terminator(toks, p2 + 1, tc);
                                Ok(
                                    (
                                        DirectiveV {
                                            name: h.name,
                                            name_span: h.name_span,
                                            args: args,
                                            block: Some(
                                                BlockV {
                                                    items: items,
                                                    span: Span { start: bstart, end: bend },
                                                    raw_content: None,
                                                    trailing_whitespace: btw,
                                                },
                                            ),
                                            span: Span { start: h.start, end: bend },
                                            trailing_comment: tc2,
                                            leading_whitespace: h.leading_whitespace,
                                            space_before_terminator: t.leading_whitespace@,
                                            trailing_whitespace: dtw,
                                        },
                                        p3,
                                    ),
                                )
                            },
                        }
                    }
                }
            },
            TokenKind::Comment(_) => if q + 1 <= pos {
                Err(ParseErrorV::UnexpectedEof { position: nowhere() })
            } else {
                spec_arguments(toks, q + 1, h, args, Some(comment_at(toks, q)))
            },
            TokenKind::Eof => Err(ParseErrorV::UnexpectedEof { position: t.span.start }),
            TokenKind::CloseBrace => Err(ParseErrorV::MissingSemicolon { position: t.span.start }),
            TokenKind::Newline => Err(
                ParseErrorV::UnexpectedToken {
                    expected: "argument, ';', or '{'"@,
                    found: spec_display_name(t.kind),
                    position: t.span.start,
                },
            ),
            _ => if q + 1 <= pos {
                Err(ParseErrorV::UnexpectedEof { position: nowhere() })
            } else {
                spec_arguments(toks, q + 1, h, args.push(argument_of(t)), tc)
            },
        }
    }
}

/// The items of a token stream
pub open spec fn spec_parse_tokens(toks: Seq<Token>) -> Result<Seq<ConfigItemV>, ParseErrorV> {
    match spec_items(toks, 0, false, 0, seq![]) {
        Ok((items, _)) => Ok(items),
        Err(e) => Err(e),
    }
}

// ---------------------------------------------------------------------------
// Executable parser
// ---------------------------------------------------------------------------

proof fn lemma_items_view_push(s: Seq<ConfigItem>, x: ConfigItem)
    ensures
        items_view(s.push(x)) == items_view(s).push(item_view(x)),
{
    assert(s.push(x).subrange(0, s.len() as int) =~= s);
}

proof fn lemma_args_view_push(s: Seq<Argument>, x: Argument)
    ensures
        args_view(s.push(x)) == args_view(s).push(x@),
{
    assert(args_view(s.push(x)) =~= args_view(s).push(x@));
}

/// Parser state: the tokens and the position of the current one
struct Parser {
    tokens: Vec<Token>,
    pos: usize,
}

impl Parser {
    spec fn wf(&self) -> bool {
        wf_tokens(self.tokens@) && self.pos < self.tokens@.len()
    }

    fn new(tokens: Vec<Token>) -> (p: Self)
        requires
            wf_tokens(tokens@),
        ensures
            p.wf(),
            p.tokens@ == tokens@,
            p.pos == 0,
    {
        Parser { tokens, pos: 0 }
    }

    /// The current token
    fn current(&self) -> (t: &Token)
        requires
            self.wf(),
        ensures
            *t == self.tokens@[self.pos as int],
    {
        &self.tokens[self.pos]
    }

    /// Moves past the current token, which is not the end of file
    fn advance(&mut self)
        requires
            old(self).wf(),
            !(old(self).tokens@[old(self).pos as int].kind is Eof),
        ensures
            final(self).wf(),
            final(self).tokens@ == old(self).tokens@,
            final(self).pos == old(self).pos + 1,
    {
        if self.pos < self.tokens.len() - 1 {
            self.pos += 1;
        }
    }

    fn skip_newlines(&mut self)
        requires
            old(self).wf(),
        ensures
            final(self).wf(),
            final(self).tokens@ == old(self).tokens@,
            final(self).pos == skip_nl(old(self).tokens@, old(self).pos as int),
    {
        while matches!(self.current().kind, TokenKind::Newline)
            invariant
                self.wf(),
                self.tokens@ == old(self).tokens@,
                skip_nl(self.tokens@, self.pos as int) == skip_nl(
                    old(self).tokens@,
                    old(self).pos as int,
                ),
            decreases self.tokens@.len() - self.pos,
        {
            self.advance();
        }
    }

    /// The blanks that end the line at the current token
    fn line_end_whitespace(&self) -> (s: String)
        requires
            self.wf(),
        ensures
            s@ == line_end_ws(self.tokens@, self.pos as int),
    {
        let t = self.current();
        match t.kind {
            TokenKind::Newline | TokenKind::Eof => t.leading_whitespace.clone(),
            _ => String::new(),
        }
    }

    /// The comment at the current token, which is a comment
    fn comment_here(&self) -> (c: Comment)
        requires
            self.wf(),
            self.tokens@[self.pos as int].kind is Comment,
        ensures
            c@ == comment_at(self.tokens@, self.pos as int),
    {
        let t = self.current();
        let text = match &t.kind {
            TokenKind::Comment(text) => text.clone(),
            _ => String::new(),
        };
        let next = Parser { tokens: Vec::new(), pos: 0 };
        let _ = next;
        let tw = if self.pos < self.tokens.len() - 1 {
            let n = &self.tokens[self.pos + 1];
            match n.kind {
                TokenKind::Newline | TokenKind::Eof => n.leading_whitespace.clone(),
                _ => String::new(),
            }
        } else {
            String::new()
        };
        Comment {
            text,
            span: t.span,
            leading_whitespace: t.leading_whitespace.clone(),
            trailing_whitespace: tw,
        }
    }

    /// After a `;` or `}`: takes a comment that follows on the same line
    fn after_terminator(&mut self, tc: Option<Comment>) -> (r: (Option<Comment>, String))
        requires
            old(self).wf(),
        ensures
            final(self).wf(),
            final(self).tokens@ == old(self).tokens@,
            ({
                let (tc2, tw, p2) = after_terminator(
                    old(self).tokens@,
                    old(self).pos as int,
                    opt_comment_view(tc),
                );
                &&& opt_comment_view(r.0) == tc2
                &&& r.1@ == tw
                &&& final(self).pos == p2
            }),
            final(self).pos >= old(self).pos,
    {
        if matches!(self.current().kind, TokenKind::Comment(_)) {
            let c = self.comment_here();
            self.advance();
            (Some(c), String::new())
        } else {
            let tw = self.line_end_whitespace();
            (tc, tw)
        }
    }

    fn parse(&mut self) -> (res: Result<Vec<ConfigItem>, ParseError>)
        requires
            old(self).wf(),
            old(self).pos == 0,
        ensures
            match spec_parse_tokens(old(self).tokens@) {
                Ok(items) => res matches Ok(v) && items_view(v@) == items,
                Err(e) => res matches Err(x) && x@ == e,
            },
    {
        self.parse_items(false)
    }

    /// Parses items up to the end of the file, or in a block up to its `}`
    fn parse_items(&mut self, in_block: bool) -> (res: Result<Vec<ConfigItem>, ParseError>)
        requires
            old(self).wf(),
        ensures
            final(self).wf(),
            final(self).tokens@ == old(self).tokens@,
            match spec_items(old(self).tokens@, old(self).pos as int, in_block, 0, seq![]) {
                Ok((items, p)) => res matches Ok(v) && items_view(v@) == items && final(self).pos
                    == p,
                Err(e) => res matches Err(x) && x@ == e,
            },
            res is Ok ==> final(self).pos >= old(self).pos,
        decreases old(self).tokens@.len() - old(self).pos, 1int,
    {
        let ghost toks = self.tokens@;
        let ghost pos0 = self.pos as int;
        let mut items: Vec<ConfigItem> = Vec::new();
        let mut consecutive_newlines: usize = 0;
        proof {
            assert(items_view(items@) =~= Seq::<ConfigItemV>::empty());
        }
        loop
            invariant
                self.wf(),
                self.tokens@ == toks,
                old(self).tokens@ == toks,
                old(self).pos == pos0,
                pos0 <= self.pos,
                consecutive_newlines <= self.pos,
                spec_items(toks, pos0, in_block, 0, seq![]) == spec_items(
                    toks,
                    self.pos as int,
                    in_block,
                    consecutive_newlines as nat,
                    items_view(items@),
                ),
            decreases self.tokens@.len() - self.pos,
        {
            let ghost p = self.pos as int;
            let ghost acc = items_view(items@);
            let t = self.current();
            if in_block && matches!(t.kind, TokenKind::CloseBrace) {
                return Ok(items);
            }
            if matches!(t.kind, TokenKind::Eof) {
                return Ok(items);
            }
            match &t.kind {
                TokenKind::Newline => {
                    let span = t.span;
                    let content = t.leading_whitespace.clone();
                    self.advance();
                    consecutive_newlines += 1;
                    if consecutive_newlines > 1 && items.len() > 0 {
                        let b = ConfigItem::BlankLine(BlankLine { span, content });
                        proof {
                            lemma_items_view_push(items@, b);
                        }
                        items.push(b);
                    }
                },
                TokenKind::Comment(_) => {
                    let c = self.comment_here();
                    self.advance();
                    let item = ConfigItem::Comment(c);
                    proof {
                        lemma_items_view_push(items@, item);
                    }
                    items.push(item);
                    consecutive_newlines = 0;
                },
                TokenKind::CloseBrace => {
                    return Err(ParseError::UnmatchedCloseBrace { position: t.span.start });
                },
                TokenKind::Ident(_)
                | TokenKind::Argument(_)
                | TokenKind::SingleQuotedString(_)
                | TokenKind::DoubleQuotedString(_) => {
                    let directive = self.parse_directive()?;
                    let item = ConfigItem::Directive(Box::new(directive));
                    proof {
                        lemma_items_view_push(items@, item);
                    }
                    items.push(item);
                    consecutive_newlines = 0;
                },
                _ => {
                    let found = String::from_str(t.kind.display_name());
                    return Err(
                        ParseError::UnexpectedToken {
                            expected: String::from_str("directive or comment"),
                            found,
                            position: t.span.start,
                        },
                    );
                },
            }
        }
    }

    /// Parses the directive whose name is the current token
    fn parse_directive(&mut self) -> (res: Result<Directive, ParseError>)
        requires
            old(self).wf(),
        ensures
            final(self).wf(),
            final(self).tokens@ == old(self).tokens@,
            match spec_directive(old(self).tokens@, old(self).pos as int) {
                Ok((d, p)) => res matches Ok(x) && directive_view(x) == d && final(self).pos == p,
                Err(e) => res matches Err(x) && x@ == e,
            },
            res is Ok ==> final(self).pos > old(self).pos,
        decreases old(self).tokens@.len() - old(self).pos, 0int,
    {
        let ghost toks = self.tokens@;
        let ghost pos0 = self.pos as int;
        let t = self.current();
        let start_pos = t.span.start;
        let leading_whitespace = t.leading_whitespace.clone();
        let name_span = t.span;
        let name = match &t.kind {
            TokenKind::Ident(v) => v.clone(),
            TokenKind::Argument(v) => v.clone(),
            TokenKind::SingleQuotedString(v) => v.clone(),
            TokenKind::DoubleQuotedString(v) => v.clone(),
            _ => {
                return Err(ParseError::ExpectedDirectiveName { position: t.span.start });
            },
        };
        self.advance();
        let ghost h = DirectiveHead {
            name: name@,
            name_span,
            start: start_pos,
            leading_whitespace: leading_whitespace@,
        };
        let mut args: Vec<Argument> = Vec::new();
        let mut trailing_comment: Option<Comment> = None;
        proof {
            assert(args_view(args@) =~= Seq::<ArgumentV>::empty());
        }
        loop
            invariant
                self.wf(),
                self.tokens@ == toks,
                old(self).tokens@ == toks,
                old(self).pos == pos0,
                pos0 < self.pos,
                0 <= pos0 < toks.len(),
                h.name == name@,
                h.name_span == name_span,
                h.start == start_pos,
                h.leading_whitespace == leading_whitespace@,
                spec_directive(toks, pos0) == spec_arguments(
                    toks,
                    self.pos as int,
                    h,
                    args_view(args@),
                    opt_comment_view(trailing_comment),
                ),
            decreases self.tokens@.len() - self.pos,
        {
            let ghost p = self.pos as int;
            proof {
                lemma_skip_nl(toks, p);
            }
            self.skip_newlines();
            let t = self.current();
            match &t.kind {
                TokenKind::Semicolon => {
                    let space_before_terminator = t.leading_whitespace.clone();
                    let end_pos = t.span.end;
                    self.advance();
                    let (tc, trailing_whitespace) = self.after_terminator(trailing_comment);
                    return Ok(
                        Directive {
                            name,
                            name_span,
                            args,
                            block: None,
                            span: Span::new(start_pos, end_pos),
                            trailing_comment: tc,
                            leading_whitespace,
                            space_before_terminator,
                            trailing_whitespace,
                        },
                    );
                },
                TokenKind::OpenBrace => {
                    let space_before_terminator = t.leading_whitespace.clone();
                    let block_start = t.span.start;
                    self.advance();
                    if is_raw_block_directive(name.as_str()) {
                        let (raw_content, block_end) = self.read_raw_block(block_start)?;
                        let (tc, block_trailing) = self.after_terminator(trailing_comment);
                        return Ok(
                            Directive {
                                name,
                                name_span,
                                args,
                                block: Some(
                                    Block {
                                        items: Vec::new(),
                                        span: Span::new(block_start, block_end),
                                        raw_content: Some(raw_content),
                                        trailing_whitespace: block_trailing,
                                    },
                                ),
                                span: Span::new(start_pos, block_end),
                                trailing_comment: tc,
                                leading_whitespace,
                                space_before_terminator,
                                trailing_whitespace: String::new(),
                            },
                        );
                    }
                    let trailing_whitespace = self.line_end_whitespace();
                    proof {
                        lemma_skip_nl(toks, self.pos as int);
                    }
                    self.skip_newlines();
                    let block_items = self.parse_items(true)?;
                    if !matches!(self.current().kind, TokenKind::CloseBrace) {
                        return Err(ParseError::UnclosedBlock { position: block_start });
                    }
                    let block_end = self.current().span.end;
                    self.advance();
                    let (tc, block_trailing) = self.after_terminator(trailing_comment);
                    return Ok(
                        Directive {
                            name,
                            name_span,
                            args,
                            block: Some(
                                Block {
                                    items: block_items,
                                    span: Span::new(block_start, block_end),
                                    raw_content: None,
                                    trailing_whitespace: block_trailing,
                                },
                            ),
                            span: Span::new(start_pos, block_end),
                            trailing_comment: tc,
                            leading_whitespace,
                            space_before_terminator,
                            trailing_whitespace,
                        },
                    );
                },
                TokenKind::Comment(_) => {
                    let c = self.comment_here();
                    self.advance();
                    trailing_comment = Some(c);
                },
                TokenKind::Eof => {
                    return Err(ParseError::UnexpectedEof { position: t.span.start });
                },
                TokenKind::CloseBrace => {
                    return Err(ParseError::MissingSemicolon { position: t.span.start });
                },
                TokenKind::Newline => {
                    let found = String::from_str(t.kind.display_name());
                    return Err(
                        ParseError::UnexpectedToken {
                            expected: String::from_str("argument, ';', or '{'"),
                            found,
                            position: t.span.start,
                        },
                    );
                },
                _ => {
                    let value = match &t.kind {
                        TokenKind::DoubleQuotedString(v) => ArgumentValue::QuotedString(v.clone()),
                        TokenKind::SingleQuotedString(v) => ArgumentValue::SingleQuotedString(
                            v.clone(),
                        ),
                        TokenKind::Variable(v) => ArgumentValue::Variable(v.clone()),
                        TokenKind::Ident(v) => ArgumentValue::Literal(v.clone()),
                        TokenKind::Argument(v) => ArgumentValue::Literal(v.clone()),
                        _ => ArgumentValue::Literal(String::new()),
                    };
                    let a = Argument { value, span: t.span, raw: t.raw.clone() };
                    proof {
                        lemma_args_view_push(args@, a);
                    }
                    args.push(a);
                    self.advance();
                },
            }
        }
    }

    /// Reads the text of a raw block (such as a `*_by_lua_block`) after its `{`,
    /// up to the matching `}`, and gives the trimmed text and the position after the `}`
    fn read_raw_block(&mut self, block_start: Position) -> (res: Result<(String, Position), ParseError>)
        requires
            old(self).wf(),
            old(self).pos >= 1,
        ensures
            final(self).wf(),
            final(self).tokens@ == old(self).tokens@,
            match spec_raw_block(old(self).tokens@, old(self).pos as int, seq![], 1) {
                Some((content, end, p)) => res matches Ok((s, e)) && s@ == trim_seq(content) && e
                    == end && final(self).pos == p,
                None => res matches Err(x) && x@ == (ParseErrorV::UnclosedBlock {
                    position: block_start,
                }),
            },
            final(self).pos >= old(self).pos,
    {
        let ghost toks = self.tokens@;
        let ghost pos0 = self.pos as int;
        let mut content = String::new();
        let mut brace_depth: usize = 1;
        let n = self.tokens.len();
        loop
            invariant
                self.wf(),
                self.tokens@ == toks,
                old(self).tokens@ == toks,
                old(self).pos == pos0,
                pos0 <= self.pos,
                n == self.tokens@.len(),
                1 <= brace_depth <= self.pos,
                spec_raw_block(toks, pos0, seq![], 1) == spec_raw_block(
                    toks,
                    self.pos as int,
                    content@,
                    brace_depth as nat,
                ),
            decreases self.tokens@.len() - self.pos,
        {
            let t = self.current();
            match t.kind {
                TokenKind::OpenBrace => {
                    push_char(&mut content, '{');
                    brace_depth += 1;
                    self.advance();
                },
                TokenKind::CloseBrace => {
                    if brace_depth == 1 {
                        let end_pos = t.span.end;
                        self.advance();
                        let cs = chars_of(content.as_str());
                        let trimmed = trim_chars(cs.as_slice());
                        return Ok((trimmed, end_pos));
                    }
                    brace_depth -= 1;
                    push_char(&mut content, '}');
                    self.advance();
                },
                TokenKind::Eof => {
                    return Err(ParseError::UnclosedBlock { position: block_start });
                },
                TokenKind::Newline => {
                    push_char(&mut content, '\n');
                    self.advance();
                },
                _ => {
                    content.append(t.raw.as_str());
                    self.advance();
                    let n = self.current();
                    if !matches!(
                        n.kind,
                        TokenKind::Newline | TokenKind::Eof | TokenKind::CloseBrace
                            | TokenKind::Semicolon
                    ) {
                        push_char(&mut content, ' ');
                    }
                },
            }
        }
    }
}

/// Check if a directive name indicates a raw block (Lua code, etc.)
///
/// Raw block directives contain code (like Lua) that should not be parsed
/// as nginx configuration; their content is kept as text.
pub fn is_raw_block_directive(name: &str) -> (r: bool)
    ensures
        r == spec_is_raw_block_directive(name@),
{
    proof {
        reveal_strlit("_by_lua_block");
        assert("_by_lua_block"@ =~= raw_block_suffix());
    }
    ends_with(name, "_by_lua_block")
}

/// The result of parsing `src`: the items its token stream parses to (see
/// [`spec_parse_tokens`]), an unclosed quote (see [`lex_fails`]) or the parse error
pub open spec fn parses_to(src: Seq<char>, res: Result<Seq<ConfigItemV>, ParseErrorV>) -> bool {
    exists|toks: Seq<Token>| lexed(src, toks) && #[trigger] spec_parse_tokens(toks) == res
}

/// Parse nginx configuration from a string.
///
/// The result is what the grammar ([`spec_parse_tokens`]) gives for the token
/// stream of `source`, with no include context; a quote that is never closed
/// fails with the error [`lex_fails`] describes.
pub fn parse_string(source: &str) -> (res: Result<Config, ParseError>)
    requires
        utf8_len(source@) <= isize::MAX,
    ensures
        res matches Ok(c) ==> parses_to(source@, Ok(items_view(c.items@)))
            && c.include_context@.len() == 0 && crate::linter::positions_consistent(c),
        res matches Err(e) ==> lex_fails(source@, e) || parses_to(source@, Err(e@)),
{
    let tokens = tokenize(source)?;
    let ghost toks = tokens@;
    proof {
        assert forall|k: int| 0 <= k < toks.len() - 1 implies !(#[trigger] toks[k].kind is Eof) by {
            assert(toks.drop_last()[k] == toks[k]);
        }
    }
    let mut parser = Parser::new(tokens);
    match parser.parse() {
        Ok(items) => {
            assert(lexed(source@, toks) && spec_parse_tokens(toks) == Ok::<Seq<ConfigItemV>, ParseErrorV>(items_view(items@)));
            let c = Config { items, include_context: Vec::new() };
            proof {
                crate::positions::lemma_parsed_positions_consistent(source@, c);
            }
            Ok(c)
        },
        Err(e) => {
            assert(lexed(source@, toks) && spec_parse_tokens(toks) == Err::<Seq<ConfigItemV>, ParseErrorV>(e@));
            Err(e)
        },
    }
}

/// Known nginx block directive names that require `{` instead of `;`
pub open spec fn spec_is_known_block(name: Seq<char>) -> bool {
    ||| name == "http"@
    ||| name == "server"@
    ||| name == "location"@
    ||| name == "upstream"@
    ||| name == "events"@
    ||| name == "stream"@
    ||| name == "mail"@
    ||| name == "types"@
    ||| name == "if"@
    ||| name == "limit_except"@
    ||| name == "geo"@
    ||| name == "map"@
    ||| name == "split_clients"@
    ||| name == "match"@
}

/// A known block directive (core contexts and conditionals) or a raw block directive
pub open spec fn spec_is_block_directive(name: Seq<char>) -> bool {
    spec_is_known_block(name) || spec_is_raw_block_directive(name)
}

/// Check if a directive is a known block directive that requires `{` instead of `;`
pub fn is_block_directive(name: &str) -> (r: bool)
    ensures
        r == spec_is_block_directive(name@),
{
    str_eq(name, "http") || str_eq(name, "server") || str_eq(name, "location") || str_eq(
        name,
        "upstream",
    ) || str_eq(name, "events") || str_eq(name, "stream") || str_eq(name, "mail") || str_eq(
        name,
        "types",
    ) || str_eq(name, "if") || str_eq(name, "limit_except") || str_eq(name, "geo") || str_eq(
        name,
        "map",
    ) || str_eq(name, "split_clients") || str_eq(name, "match") || is_raw_block_directive(name)
}

/// Check if a directive is a block directive, including custom additions
pub fn is_block_directive_with_extras(name: &str, additional: &[String]) -> (r: bool)
    ensures
        r == (spec_is_block_directive(name@) || exists|i: int|
            0 <= i < additional@.len() && (#[trigger] additional@[i])@ == name@),
{
    if is_block_directive(name) {
        return true;
    }
    let mut i: usize = 0;
    while i < additional.len()
        invariant
            i <= additional@.len(),
            forall|k: int| 0 <= k < i ==> (#[trigger] additional@[k])@ != name@,
        decreases additional@.len() - i,
    {
        if str_eq(additional[i].as_str(), name) {
            return true;
        }
        i += 1;
    }
    false
}

} // verus!
