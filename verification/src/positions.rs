//! The positions the parser records agree with the text it read.
//!
//! Every directive of a parsed file starts after its leading blanks, ends a
//! `;` after the blanks before it, and has its block close on a line at or
//! after the one it starts on; the blanks that end its lines fit in the
//! file. These are the facts the rules need to compute the byte ranges of
//! their fixes, so a parsed file can be linted with no check of its own.
use vstd::prelude::*;
use crate::ast::{BlockV, Config, ConfigItemV, DirectiveV, Span, items_view};
use crate::linter::positions_consistent;
use crate::lexer::{
    Token, TokenKind, at_position, count_newlines, lemma_count_newlines_concat,
    lemma_utf8_len_concat, lexed, token_at_ok, token_here, tokens_text, utf8_len, utf8_width,
};
use crate::parser::{
    DirectiveHead, after_terminator, lemma_skip_nl, line_end_ws, parses_to, skip_nl,
    spec_arguments, spec_directive, spec_items, spec_parse_tokens, spec_raw_block,
    spec_is_raw_block_directive,
};
use crate::rules::block_lines::{block_lines_countable, item_countable};
use crate::rules::security::{
    OnRule, autoindex_rule, included_in_http, item_on_offsets_ok, on_offsets_ok, server_tokens_rule,
};
use crate::rules::space_before_semicolon::{semicolon_offsets_ok, item_semicolon_offset_ok};
use crate::rules::trailing_whitespace::{
    directive_tail_start, tail_offsets_ok, item_tail_offsets_ok,
};

verus! {

// ---------------------------------------------------------------------------
// Where each token stands
// ---------------------------------------------------------------------------

/// The index in the text where the leading blanks of token `k` start
pub open spec fn tok_index(toks: Seq<Token>, k: int) -> int {
    tokens_text(toks.take(k)).len() as int
}

proof fn lemma_tok_index_step(toks: Seq<Token>, k: int)
    requires
        0 <= k < toks.len(),
    ensures
        tok_index(toks, k + 1) == tok_index(toks, k) + toks[k].leading_whitespace@.len()
            + toks[k].raw@.len(),
{
    assert(toks.take(k + 1).drop_last() =~= toks.take(k));
    assert(toks.take(k + 1).last() == toks[k]);
}

proof fn lemma_tok_index_mono(toks: Seq<Token>, k: int, m: int)
    requires
        0 <= k <= m <= toks.len(),
    ensures
        tok_index(toks, k) <= tok_index(toks, m),
    decreases m - k,
{
    if k < m {
        lemma_tok_index_mono(toks, k, m - 1);
        lemma_tok_index_step(toks, m - 1);
    }
}

/// Token `k` of the stream of `src` is what `src` holds at its place
proof fn lemma_token_placed(src: Seq<char>, toks: Seq<Token>, k: int)
    requires
        lexed(src, toks),
        0 <= k < toks.len(),
    ensures
        token_here(src, toks[k], tok_index(toks, k)),
{
    if k < toks.len() - 1 {
        let d = toks.drop_last();
        assert(token_at_ok(src, d, k));
        assert(d.take(k) =~= toks.take(k));
        assert(d[k] == toks[k]);
    } else {
        assert(token_at_ok(src, toks, k));
    }
}

/// Where token `k` starts: after its leading blanks
pub open spec fn tok_start(toks: Seq<Token>, k: int) -> int {
    tok_index(toks, k) + toks[k].leading_whitespace@.len()
}

/// Where token `k` ends
pub open spec fn tok_end(toks: Seq<Token>, k: int) -> int {
    tok_start(toks, k) + toks[k].raw@.len()
}

/// The text up to `j` is the text up to `i` and the text between
proof fn lemma_take_split(s: Seq<char>, i: int, j: int)
    requires
        0 <= i <= j <= s.len(),
    ensures
        s.take(j) == s.take(i) + s.subrange(i, j),
        utf8_len(s.take(i)) <= utf8_len(s.take(j)),
        count_newlines(s.take(i)) <= count_newlines(s.take(j)),
{
    assert(s.take(j) =~= s.take(i) + s.subrange(i, j));
    lemma_utf8_len_concat(s.take(i), s.subrange(i, j));
    lemma_count_newlines_concat(s.take(i), s.subrange(i, j));
}

/// A token that starts no later than another ends starts on a line no
/// later than the other's end, and lines count from 1
proof fn lemma_lines_ordered(src: Seq<char>, toks: Seq<Token>, k: int, m: int)
    requires
        lexed(src, toks),
        0 <= k <= m < toks.len(),
    ensures
        1 <= toks[k].span.start.line <= toks[m].span.end.line,
{
    lemma_token_placed(src, toks, k);
    lemma_token_placed(src, toks, m);
    lemma_tok_index_step(toks, k);
    if k < m {
        lemma_tok_index_mono(toks, k + 1, m);
    }
    lemma_take_split(src, tok_start(toks, k), tok_end(toks, m));
}

/// A token starts after its leading blanks
proof fn lemma_start_after_blanks(src: Seq<char>, toks: Seq<Token>, k: int)
    requires
        lexed(src, toks),
        0 <= k < toks.len(),
    ensures
        toks[k].span.start.offset >= utf8_len(toks[k].leading_whitespace@),
{
    lemma_token_placed(src, toks, k);
    let p = tok_index(toks, k);
    let lw = toks[k].leading_whitespace@;
    let raw = toks[k].raw@;
    lemma_take_split(src, p, tok_start(toks, k));
    assert(src.subrange(p, tok_start(toks, k)) =~= (lw + raw).subrange(0, lw.len() as int));
    assert((lw + raw).subrange(0, lw.len() as int) =~= lw);
    lemma_utf8_len_concat(src.take(p), lw);
}

/// A character below 0x80 takes one byte
proof fn lemma_one_byte(c: char)
    requires
        (c as u32) < 0x80,
    ensures
        utf8_len(seq![c]) == 1,
{
    assert(seq![c].drop_last() =~= Seq::<char>::empty());
    assert(seq![c].last() == c);
    assert(utf8_len(Seq::<char>::empty()) == 0);
    assert(utf8_width(c) == 1);
    assert(utf8_len(seq![c]) == utf8_len(seq![c].drop_last()) + utf8_width(seq![c].last()));
}

/// A `;` ends a byte after its leading blanks
proof fn lemma_semicolon_end(src: Seq<char>, toks: Seq<Token>, k: int)
    requires
        lexed(src, toks),
        0 <= k < toks.len(),
        toks[k].kind is Semicolon,
    ensures
        toks[k].span.end.offset >= 1 + utf8_len(toks[k].leading_whitespace@),
{
    lemma_token_placed(src, toks, k);
    let p = tok_index(toks, k);
    let lw = toks[k].leading_whitespace@;
    let raw = toks[k].raw@;
    assert(raw == seq![';']);
    lemma_take_split(src, p, tok_end(toks, k));
    lemma_utf8_len_concat(src.take(p), lw + raw);
    lemma_utf8_len_concat(lw, raw);
    lemma_one_byte(';');
}

/// A `{` ends a byte after it starts
proof fn lemma_open_brace_width(src: Seq<char>, toks: Seq<Token>, k: int)
    requires
        lexed(src, toks),
        0 <= k < toks.len(),
        toks[k].kind is OpenBrace,
    ensures
        toks[k].span.end.offset == toks[k].span.start.offset + 1,
{
    lemma_token_placed(src, toks, k);
    let raw = toks[k].raw@;
    assert(raw == seq!['{']);
    let s = tok_start(toks, k);
    let p = tok_index(toks, k);
    let lw = toks[k].leading_whitespace@;
    let e = tok_end(toks, k);
    assert(src.subrange(s, e) =~= src.subrange(p, e).subrange(lw.len() as int, (lw + raw).len() as int));
    assert((lw + raw).subrange(lw.len() as int, (lw + raw).len() as int) =~= raw);
    lemma_take_split(src, s, e);
    lemma_utf8_len_concat(src.take(s), raw);
    lemma_one_byte('{');
}

/// The leading blanks of the token after `k` end where the text has not
/// run past its length in bytes
proof fn lemma_next_blanks_fit(src: Seq<char>, toks: Seq<Token>, k: int)
    requires
        lexed(src, toks),
        0 <= k,
        k + 1 < toks.len(),
    ensures
        toks[k].span.end.offset + utf8_len(toks[k + 1].leading_whitespace@) <= utf8_len(src),
{
    lemma_token_placed(src, toks, k);
    lemma_token_placed(src, toks, k + 1);
    lemma_tok_index_step(toks, k);
    let e = tok_end(toks, k);
    let lw = toks[k + 1].leading_whitespace@;
    let raw = toks[k + 1].raw@;
    let s2 = tok_start(toks, k + 1);
    lemma_take_split(src, e, s2);
    assert(src.subrange(e, s2) =~= (lw + raw).subrange(0, lw.len() as int));
    assert((lw + raw).subrange(0, lw.len() as int) =~= lw);
    lemma_utf8_len_concat(src.take(e), lw);
    lemma_take_split(src, s2, src.len() as int);
    assert(src.take(src.len() as int) =~= src);
}

/// A token's start, counted in bytes, and its leading blanks again fit in
/// a machine integer
proof fn lemma_start_and_blanks_fit(src: Seq<char>, toks: Seq<Token>, k: int)
    requires
        lexed(src, toks),
        utf8_len(src) <= isize::MAX,
        0 <= k < toks.len(),
    ensures
        toks[k].span.start.offset + utf8_len(toks[k].leading_whitespace@) <= usize::MAX,
{
    lemma_token_placed(src, toks, k);
    let p = tok_index(toks, k);
    let lw = toks[k].leading_whitespace@;
    let raw = toks[k].raw@;
    let s = tok_start(toks, k);
    lemma_take_split(src, p, s);
    assert(src.subrange(p, s) =~= (lw + raw).subrange(0, lw.len() as int));
    assert((lw + raw).subrange(0, lw.len() as int) =~= lw);
    lemma_utf8_len_concat(src.take(p), lw);
    lemma_take_split(src, s, src.len() as int);
    assert(src.take(src.len() as int) =~= src);
}

// ---------------------------------------------------------------------------
// What holds of every parsed directive
// ---------------------------------------------------------------------------

/// The positions of `items` and of the items in their blocks agree with the
/// text they were read from
pub open spec fn items_placed(items: Seq<ConfigItemV>) -> bool
    decreases items,
{
    if items.len() == 0 {
        true
    } else {
        items_placed(items.subrange(0, items.len() - 1)) && item_placed(items[items.len() - 1])
    }
}

/// The positions of `item` agree with the text it was read from
pub open spec fn item_placed(item: ConfigItemV) -> bool
    decreases item,
{
    match item {
        ConfigItemV::Directive(d) => {
            &&& d.span.start.offset >= utf8_len(d.leading_whitespace)
            &&& d.block is None ==> d.span.end.offset >= 1 + utf8_len(d.space_before_terminator)
            &&& d.trailing_whitespace.len() > 0 ==> directive_tail_start(d) + utf8_len(
                d.trailing_whitespace,
            ) <= usize::MAX
            &&& match d.block {
                Some(b) => {
                    &&& 1 <= d.span.start.line <= b.span.end.line
                    &&& b.trailing_whitespace.len() > 0 ==> b.span.end.offset + utf8_len(
                        b.trailing_whitespace,
                    ) <= usize::MAX
                    &&& items_placed(b.items)
                },
                None => true,
            }
        },
        ConfigItemV::Comment(c) => c.trailing_whitespace.len() > 0 ==> c.span.end.offset
            + utf8_len(c.trailing_whitespace) <= usize::MAX,
        ConfigItemV::BlankLine(bl) => bl.span.start.offset + utf8_len(bl.content) <= usize::MAX,
    }
}

proof fn lemma_placed_push(items: Seq<ConfigItemV>, x: ConfigItemV)
    requires
        items_placed(items),
        item_placed(x),
    ensures
        items_placed(items.push(x)),
{
    assert(items.push(x).subrange(0, items.len() as int) =~= items);
}

/// A raw block closes with a `}` token at or after `pos`, and parsing goes
/// on right after it
proof fn lemma_raw_block_close(toks: Seq<Token>, pos: int, content: Seq<char>, depth: nat)
    requires
        spec_raw_block(toks, pos, content, depth) is Some,
    ensures
        ({
            let (c, bend, p3) = spec_raw_block(toks, pos, content, depth)->Some_0;
            &&& pos < p3 <= toks.len()
            &&& bend == toks[p3 - 1].span.end
        }),
    decreases toks.len() - pos,
{
    let t = toks[pos];
    match t.kind {
        TokenKind::OpenBrace => lemma_raw_block_close(toks, pos + 1, content.push('{'), depth + 1),
        TokenKind::CloseBrace => if depth > 1 {
            lemma_raw_block_close(toks, pos + 1, content.push('}'), (depth - 1) as nat);
        },
        TokenKind::Eof => {},
        TokenKind::Newline => lemma_raw_block_close(toks, pos + 1, content.push('\n'), depth),
        _ => {
            let c2 = content + t.raw@;
            if pos + 1 < toks.len() && !(toks[pos + 1].kind is Newline || toks[pos + 1].kind is Eof
                || toks[pos + 1].kind is CloseBrace || toks[pos + 1].kind is Semicolon) {
                lemma_raw_block_close(toks, pos + 1, c2.push(' '), depth);
            } else {
                lemma_raw_block_close(toks, pos + 1, c2, depth);
            }
        },
    }
}

/// The blanks `after_terminator` gives fit after the token before `pos`
proof fn lemma_after_terminator_fits(
    src: Seq<char>,
    toks: Seq<Token>,
    pos: int,
    tc: Option<crate::ast::CommentV>,
)
    requires
        lexed(src, toks),
        utf8_len(src) <= isize::MAX,
        1 <= pos <= toks.len(),
    ensures
        after_terminator(toks, pos, tc).1.len() > 0 ==> toks[pos - 1].span.end.offset + utf8_len(
            after_terminator(toks, pos, tc).1,
        ) <= usize::MAX,
        after_terminator(toks, pos, tc).2 >= pos,
{
    if after_terminator(toks, pos, tc).1.len() > 0 {
        assert(pos < toks.len());
        lemma_next_blanks_fit(src, toks, pos - 1);
    }
}

proof fn lemma_line_end_fits(src: Seq<char>, toks: Seq<Token>, pos: int)
    requires
        lexed(src, toks),
        utf8_len(src) <= isize::MAX,
        1 <= pos <= toks.len(),
    ensures
        line_end_ws(toks, pos).len() > 0 ==> toks[pos - 1].span.end.offset + utf8_len(
            line_end_ws(toks, pos),
        ) <= usize::MAX,
{
    if line_end_ws(toks, pos).len() > 0 {
        lemma_next_blanks_fit(src, toks, pos - 1);
    }
}

/// The items `spec_items` reads are placed, given that those read so far are
proof fn lemma_items_read_placed(
    src: Seq<char>,
    toks: Seq<Token>,
    pos: int,
    in_block: bool,
    consec: nat,
    acc: Seq<ConfigItemV>,
)
    requires
        lexed(src, toks),
        utf8_len(src) <= isize::MAX,
        items_placed(acc),
    ensures
        spec_items(toks, pos, in_block, consec, acc) matches Ok((items, p)) ==> items_placed(items)
            && p >= pos && p < toks.len(),
    decreases toks.len() - pos, 1int,
{
    if 0 <= pos < toks.len() {
        let t = toks[pos];
        if in_block && t.kind is CloseBrace {
        } else if t.kind is Eof {
        } else {
            match t.kind {
                TokenKind::Newline => {
                    lemma_start_and_blanks_fit(src, toks, pos);
                    let acc2 = if consec + 1 > 1 && acc.len() > 0 {
                        acc.push(
                            ConfigItemV::BlankLine(
                                crate::ast::BlankLineV { span: t.span, content: t.leading_whitespace@ },
                            ),
                        )
                    } else {
                        acc
                    };
                    if consec + 1 > 1 && acc.len() > 0 {
                        lemma_placed_push(
                            acc,
                            ConfigItemV::BlankLine(
                                crate::ast::BlankLineV { span: t.span, content: t.leading_whitespace@ },
                            ),
                        );
                    }
                    lemma_items_read_placed(src, toks, pos + 1, in_block, consec + 1, acc2);
                },
                TokenKind::Comment(_) => {
                    lemma_line_end_fits(src, toks, pos + 1);
                    let x = ConfigItemV::Comment(crate::parser::comment_at(toks, pos));
                    lemma_placed_push(acc, x);
                    lemma_items_read_placed(src, toks, pos + 1, in_block, 0, acc.push(x));
                },
                TokenKind::CloseBrace => {},
                TokenKind::Variable(_) | TokenKind::Semicolon | TokenKind::OpenBrace => {},
                _ => {
                    lemma_directive_read_placed(src, toks, pos);
                    match spec_directive(toks, pos) {
                        Ok((d, p2)) => if pos < p2 <= toks.len() {
                            lemma_placed_push(acc, ConfigItemV::Directive(d));
                            lemma_items_read_placed(
                                src,
                                toks,
                                p2,
                                in_block,
                                0,
                                acc.push(ConfigItemV::Directive(d)),
                            );
                        },
                        Err(e) => {},
                    }
                },
            }
        }
    }
}

/// The directive `spec_directive` reads is placed
proof fn lemma_directive_read_placed(src: Seq<char>, toks: Seq<Token>, pos: int)
    requires
        lexed(src, toks),
        utf8_len(src) <= isize::MAX,
    ensures
        spec_directive(toks, pos) matches Ok((d, p)) ==> item_placed(ConfigItemV::Directive(d))
            && p > pos,
    decreases toks.len() - pos, 0int,
{
    if 0 <= pos < toks.len() {
        let t = toks[pos];
        if crate::parser::is_name_kind(t.kind) {
            lemma_arguments_read_placed(
                src,
                toks,
                pos + 1,
                DirectiveHead {
                    name: crate::parser::kind_value(t.kind),
                    name_span: t.span,
                    start: t.span.start,
                    leading_whitespace: t.leading_whitespace@,
                },
                seq![],
                None,
                pos,
            );
        }
    }
}

/// The directive `spec_arguments` reads, whose name is token `hk`, is placed
proof fn lemma_arguments_read_placed(
    src: Seq<char>,
    toks: Seq<Token>,
    pos: int,
    h: DirectiveHead,
    args: Seq<crate::ast::ArgumentV>,
    tc: Option<crate::ast::CommentV>,
    hk: int,
)
    requires
        lexed(src, toks),
        utf8_len(src) <= isize::MAX,
        0 <= hk < pos,
        hk < toks.len(),
        h.start == toks[hk].span.start,
        h.leading_whitespace == toks[hk].leading_whitespace@,
    ensures
        spec_arguments(toks, pos, h, args, tc) matches Ok((d, p)) ==> item_placed(
            ConfigItemV::Directive(d),
        ) && p >= pos,
    decreases toks.len() - pos, 2int,
{
    let q = skip_nl(toks, pos);
    lemma_skip_nl(toks, pos);
    if 0 <= pos && 0 <= q < toks.len() {
        let t = toks[q];
        lemma_start_after_blanks(src, toks, hk);
        match t.kind {
            TokenKind::Semicolon => {
                lemma_semicolon_end(src, toks, q);
                lemma_after_terminator_fits(src, toks, q + 1, tc);
            },
            TokenKind::OpenBrace => {
                let bstart = t.span.start;
                if spec_is_raw_block_directive(h.name) {
                    if spec_raw_block(toks, q + 1, seq![], 1) is Some {
                        lemma_raw_block_close(toks, q + 1, seq![], 1);
                        let (content, bend, p3) = spec_raw_block(toks, q + 1, seq![], 1)->Some_0;
                        lemma_lines_ordered(src, toks, hk, p3 - 1);
                        lemma_after_terminator_fits(src, toks, p3, tc);
                        let (tc2, btw, p4) = after_terminator(toks, p3, tc);
                        let d = DirectiveV {
                            name: h.name,
                            name_span: h.name_span,
                            args: args,
                            block: Some(
                                BlockV {
                                    items: seq![],
                                    span: Span { start: bstart, end: bend },
                                    raw_content: Some(crate::text::trim_seq(content)),
                                    trailing_whitespace: btw,
                                },
                            ),
                            span: Span { start: h.start, end: bend },
                            trailing_comment: tc2,
                            leading_whitespace: h.leading_whitespace,
                            space_before_terminator: t.leading_whitespace@,
                            trailing_whitespace: seq![],
                        };
                        assert(items_placed(Seq::<ConfigItemV>::empty()));
                        assert(item_placed(ConfigItemV::Directive(d)));
                    }
                } else {
                    let dtw = line_end_ws(toks, q + 1);
                    let p1 = skip_nl(toks, q + 1);
                    lemma_skip_nl(toks, q + 1);
                    lemma_open_brace_width(src, toks, q);
                    lemma_line_end_fits(src, toks, q + 1);
                    if pos < p1 <= toks.len() {
                        lemma_items_read_placed(src, toks, p1, true, 0, seq![]);
                        match spec_items(toks, p1, true, 0, seq![]) {
                            Err(e) => {},
                            Ok((items, p2)) => if 0 <= p2 < toks.len() && toks[p2].kind is CloseBrace {
                                lemma_lines_ordered(src, toks, hk, p2);
                                lemma_after_terminator_fits(src, toks, p2 + 1, tc);
                            },
                        }
                    }
                }
            },
            TokenKind::Comment(_) => if q + 1 > pos {
                lemma_arguments_read_placed(
                    src,
                    toks,
                    q + 1,
                    h,
                    args,
                    Some(crate::parser::comment_at(toks, q)),
                    hk,
                );
            },
            TokenKind::Eof => {},
            TokenKind::CloseBrace => {},
            TokenKind::Newline => {},
            _ => if q + 1 > pos {
                lemma_arguments_read_placed(
                    src,
                    toks,
                    q + 1,
                    h,
                    args.push(crate::parser::argument_of(t)),
                    tc,
                    hk,
                );
            },
        }
    }
}

// ---------------------------------------------------------------------------
// What the rules need
// ---------------------------------------------------------------------------

/// Placed items meet what every rule needs of their positions
pub proof fn lemma_placed_rules(items: Seq<ConfigItemV>)
    requires
        items_placed(items),
    ensures
        block_lines_countable(items),
        semicolon_offsets_ok(items),
        tail_offsets_ok(items),
        forall|r: OnRule, in_http: bool| #[trigger] on_offsets_ok(r, items, in_http),
    decreases items,
{
    if items.len() > 0 {
        let n = items.len() - 1;
        lemma_placed_rules(items.subrange(0, n));
        lemma_placed_item(items[n]);
        assert forall|r: OnRule, in_http: bool| #[trigger] on_offsets_ok(r, items, in_http) by {
            assert(on_offsets_ok(r, items.subrange(0, n), in_http));
            assert(item_on_offsets_ok(r, items[n], in_http));
        }
    }
}

/// A placed item meets what every rule needs of its positions
pub proof fn lemma_placed_item(item: ConfigItemV)
    requires
        item_placed(item),
    ensures
        item_countable(item),
        item_semicolon_offset_ok(item),
        item_tail_offsets_ok(item),
        forall|r: OnRule, in_http: bool| #[trigger] item_on_offsets_ok(r, item, in_http),
    decreases item,
{
    match item {
        ConfigItemV::Directive(d) => {
            match d.block {
                Some(b) => {
                    lemma_placed_rules(b.items);
                    assert forall|r: OnRule, in_http: bool| #[trigger] item_on_offsets_ok(r, item, in_http) by {
                        assert(on_offsets_ok(r, b.items, in_http || d.name == "http"@));
                    }
                },
                None => {},
            }
        },
        _ => {},
    }
}

/// Every item of a text that parses, and every item in their blocks, is
/// placed: its positions agree with the text
pub proof fn lemma_parsed_items_placed(src: Seq<char>, items: Seq<ConfigItemV>)
    requires
        parses_to(src, Ok(items)),
        utf8_len(src) <= isize::MAX,
    ensures
        items_placed(items),
{
    let toks = choose|toks: Seq<Token>| lexed(src, toks) && #[trigger] spec_parse_tokens(toks) == Ok::<Seq<ConfigItemV>, crate::error::ParseErrorV>(items);
    assert(items_placed(Seq::<ConfigItemV>::empty()));
    lemma_items_read_placed(src, toks, 0, false, 0, seq![]);
}

/// A configuration read from a text, whatever files it is included from,
/// has the positions every rule relies on: it can be linted as it is
pub proof fn lemma_parsed_positions_consistent(src: Seq<char>, config: Config)
    requires
        parses_to(src, Ok(items_view(config.items@))),
        utf8_len(src) <= isize::MAX,
    ensures
        positions_consistent(config),
{
    lemma_parsed_items_placed(src, items_view(config.items@));
    lemma_placed_rules(items_view(config.items@));
    let in_http = included_in_http(config.include_context@);
    assert(on_offsets_ok(server_tokens_rule(), items_view(config.items@), in_http));
    assert(on_offsets_ok(autoindex_rule(), items_view(config.items@), in_http));
}

} // verus!
