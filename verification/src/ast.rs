//! Syntax tree of an nginx configuration file.
//!
//! The tree keeps the whitespace around each item, so that the source can be
//! written back (see [`Config::to_source`]) for autofix.
use vstd::prelude::*;

verus! {

/// Source position in the file
#[derive(Debug, Clone, Copy, PartialEq, Eq, Structural, Default)]
pub struct Position {
    /// Line number, from 1
    pub line: usize,
    /// Column in characters, from 1
    pub column: usize,
    /// Byte offset from the start of the file
    pub offset: usize,
}

impl Position {
    pub fn new(line: usize, column: usize, offset: usize) -> (p: Self)
        ensures
            p.line == line,
            p.column == column,
            p.offset == offset,
    {
        Position { line, column, offset }
    }
}

/// Source range (start and end positions)
#[derive(Debug, Clone, Copy, PartialEq, Eq, Structural, Default)]
pub struct Span {
    pub start: Position,
    pub end: Position,
}

impl Span {
    pub fn new(start: Position, end: Position) -> (s: Self)
        ensures
            s.start == start,
            s.end == end,
    {
        Span { start, end }
    }
}

/// A comment (`# ...`)
#[derive(Debug, Clone)]
pub struct Comment {
    /// The text, `#` included
    pub text: String,
    pub span: Span,
    /// Blanks before the `#`
    pub leading_whitespace: String,
    /// Blanks after the comment, up to the end of the line
    pub trailing_whitespace: String,
}

/// An empty line between items
#[derive(Debug, Clone)]
pub struct BlankLine {
    pub span: Span,
    /// The blanks the line holds
    pub content: String,
}

/// Type of argument value
#[derive(Debug, Clone)]
pub enum ArgumentValue {
    /// `on`, `off`, `80`, `/path/to/file`
    Literal(String),
    /// `"hello world"` is `hello world`
    QuotedString(String),
    /// `'hello world'` is `hello world`
    SingleQuotedString(String),
    /// `$variable_name` is `variable_name`
    Variable(String),
}

/// A directive argument
#[derive(Debug, Clone)]
pub struct Argument {
    pub value: ArgumentValue,
    pub span: Span,
    /// Source text, quotes included
    pub raw: String,
}

/// A block `{ ... }`
#[derive(Debug)]
pub struct Block {
    pub items: Vec<ConfigItem>,
    pub span: Span,
    /// The text of a block whose content is not nginx syntax (such as `*_by_lua_block`)
    pub raw_content: Option<String>,
    /// Blanks after the closing `}`, up to the end of the line
    pub trailing_whitespace: String,
}

/// A directive (simple or block)
#[derive(Debug)]
pub struct Directive {
    pub name: String,
    pub name_span: Span,
    pub args: Vec<Argument>,
    pub block: Option<Block>,
    /// Range from the name to the `;` or the closing `}`
    pub span: Span,
    /// Comment at the end of the line
    pub trailing_comment: Option<Comment>,
    /// Blanks before the name
    pub leading_whitespace: String,
    /// Blanks before the `;` or the `{`
    pub space_before_terminator: String,
    /// Blanks after the `;` or the `{`, up to the end of the line
    pub trailing_whitespace: String,
}

/// An item in the configuration (directive, comment, or blank line)
#[derive(Debug)]
pub enum ConfigItem {
    Directive(Box<Directive>),
    Comment(Comment),
    BlankLine(BlankLine),
}

/// Root of the configuration file
#[derive(Debug)]
pub struct Config {
    pub items: Vec<ConfigItem>,
    /// Block names of the context the file is included from, outermost first
    pub include_context: Vec<String>,
}

// ---------------------------------------------------------------------------
// Mathematical model of the tree
// ---------------------------------------------------------------------------

pub ghost struct CommentV {
    pub text: Seq<char>,
    pub span: Span,
    pub leading_whitespace: Seq<char>,
    pub trailing_whitespace: Seq<char>,
}

pub ghost struct BlankLineV {
    pub span: Span,
    pub content: Seq<char>,
}

pub ghost enum ArgumentKind {
    Literal,
    QuotedString,
    SingleQuotedString,
    Variable,
}

pub ghost struct ArgumentV {
    pub kind: ArgumentKind,
    /// The value (for quoted strings without the quotes, for variables without `$`)
    pub value: Seq<char>,
    pub span: Span,
    pub raw: Seq<char>,
}

pub ghost struct BlockV {
    pub items: Seq<ConfigItemV>,
    pub span: Span,
    pub raw_content: Option<Seq<char>>,
    pub trailing_whitespace: Seq<char>,
}

pub ghost struct DirectiveV {
    pub name: Seq<char>,
    pub name_span: Span,
    pub args: Seq<ArgumentV>,
    pub block: Option<BlockV>,
    pub span: Span,
    pub trailing_comment: Option<CommentV>,
    pub leading_whitespace: Seq<char>,
    pub space_before_terminator: Seq<char>,
    pub trailing_whitespace: Seq<char>,
}

pub ghost enum ConfigItemV {
    Directive(DirectiveV),
    Comment(CommentV),
    BlankLine(BlankLineV),
}

impl View for Comment {
    type V = CommentV;

    open spec fn view(&self) -> CommentV {
        CommentV {
            text: self.text@,
            span: self.span,
            leading_whitespace: self.leading_whitespace@,
            trailing_whitespace: self.trailing_whitespace@,
        }
    }
}

impl View for BlankLine {
    type V = BlankLineV;

    open spec fn view(&self) -> BlankLineV {
        BlankLineV { span: self.span, content: self.content@ }
    }
}

impl ArgumentValue {
    pub open spec fn kind(&self) -> ArgumentKind {
        match self {
            ArgumentValue::Literal(_) => ArgumentKind::Literal,
            ArgumentValue::QuotedString(_) => ArgumentKind::QuotedString,
            ArgumentValue::SingleQuotedString(_) => ArgumentKind::SingleQuotedString,
            ArgumentValue::Variable(_) => ArgumentKind::Variable,
        }
    }

    pub open spec fn text(&self) -> Seq<char> {
        match self {
            ArgumentValue::Literal(s) => s@,
            ArgumentValue::QuotedString(s) => s@,
            ArgumentValue::SingleQuotedString(s) => s@,
            ArgumentValue::Variable(s) => s@,
        }
    }
}

impl View for Argument {
    type V = ArgumentV;

    open spec fn view(&self) -> ArgumentV {
        ArgumentV { kind: self.value.kind(), value: self.value.text(), span: self.span, raw: self.raw@ }
    }
}

pub open spec fn args_view(args: Seq<Argument>) -> Seq<ArgumentV> {
    args.map_values(|a: Argument| a@)
}

pub open spec fn opt_comment_view(c: Option<Comment>) -> Option<CommentV> {
    match c {
        Some(c) => Some(c@),
        None => None,
    }
}

pub open spec fn opt_string_view(s: Option<String>) -> Option<Seq<char>> {
    match s {
        Some(s) => Some(s@),
        None => None,
    }
}

/// Model of a sequence of items
pub open spec fn items_view(s: Seq<ConfigItem>) -> Seq<ConfigItemV>
    decreases s,
{
    if s.len() == 0 {
        seq![]
    } else {
        items_view(s.subrange(0, s.len() - 1)).push(item_view(s[s.len() - 1]))
    }
}

/// Model of one item
pub open spec fn item_view(i: ConfigItem) -> ConfigItemV
    decreases i,
{
    match i {
        ConfigItem::Directive(d) => ConfigItemV::Directive(directive_view(*d)),
        ConfigItem::Comment(c) => ConfigItemV::Comment(c@),
        ConfigItem::BlankLine(b) => ConfigItemV::BlankLine(b@),
    }
}

/// Model of a directive
pub open spec fn directive_view(d: Directive) -> DirectiveV
    decreases d,
{
    DirectiveV {
        name: d.name@,
        name_span: d.name_span,
        args: args_view(d.args@),
        block: match d.block {
            Some(b) => Some(
                BlockV {
                    items: items_view(b.items@),
                    span: b.span,
                    raw_content: opt_string_view(b.raw_content),
                    trailing_whitespace: b.trailing_whitespace@,
                },
            ),
            None => None,
        },
        span: d.span,
        trailing_comment: opt_comment_view(d.trailing_comment),
        leading_whitespace: d.leading_whitespace@,
        space_before_terminator: d.space_before_terminator@,
        trailing_whitespace: d.trailing_whitespace@,
    }
}

// ---------------------------------------------------------------------------
// Queries
// ---------------------------------------------------------------------------

/// The directives among `items`, in order (not those inside blocks)
pub open spec fn directives_of(items: Seq<ConfigItemV>) -> Seq<DirectiveV>
    decreases items.len(),
{
    if items.len() == 0 {
        seq![]
    } else {
        let rest = directives_of(items.drop_last());
        match items.last() {
            ConfigItemV::Directive(d) => rest.push(d),
            _ => rest,
        }
    }
}

/// All directives of `items` and of the blocks inside them, depth first, each
/// before the directives of its block
pub open spec fn all_directives_of(items: Seq<ConfigItemV>) -> Seq<DirectiveV>
    decreases items,
{
    if items.len() == 0 {
        seq![]
    } else {
        all_directives_of(items.subrange(0, items.len() - 1)) + all_directives_in(
            items[items.len() - 1],
        )
    }
}

/// The directives of one item: a directive, then those of its block
pub open spec fn all_directives_in(item: ConfigItemV) -> Seq<DirectiveV>
    decreases item,
{
    match item {
        ConfigItemV::Directive(d) => seq![d] + match d.block {
            Some(b) => all_directives_of(b.items),
            None => seq![],
        },
        _ => seq![],
    }
}

/// The model of a sequence of items has one item per item
pub proof fn lemma_items_view_index(s: Seq<ConfigItem>, i: int)
    requires
        0 <= i < s.len(),
    ensures
        items_view(s).len() == s.len(),
        items_view(s)[i] == item_view(s[i]),
    decreases s.len(),
{
    lemma_items_view_len(s);
    if i < s.len() - 1 {
        let pre = s.subrange(0, s.len() - 1);
        lemma_items_view_index(pre, i);
        assert(pre[i] == s[i]);
    }
}

/// The model of a sequence of items is as long as the sequence
pub proof fn lemma_items_view_len(s: Seq<ConfigItem>)
    ensures
        items_view(s).len() == s.len(),
    decreases s.len(),
{
    if s.len() > 0 {
        lemma_items_view_len(s.subrange(0, s.len() - 1));
    }
}

/// The models of the directives a vector of references points to
pub open spec fn directive_refs_view(v: Seq<&Directive>) -> Seq<DirectiveV> {
    v.map_values(|d: &Directive| directive_view(*d))
}

proof fn lemma_refs_view_push(v: Seq<&Directive>, d: &Directive)
    ensures
        directive_refs_view(v.push(d)) == directive_refs_view(v).push(directive_view(*d)),
{
    assert(directive_refs_view(v.push(d)) =~= directive_refs_view(v).push(directive_view(*d)));
}

/// Pushes the directives among `items` onto `out`
fn collect_directives<'a>(items: &'a Vec<ConfigItem>, out: &mut Vec<&'a Directive>)
    ensures
        directive_refs_view(final(out)@) == directive_refs_view(old(out)@) + directives_of(
            items_view(items@),
        ),
{
    let ghost start = directive_refs_view(out@);
    let mut i: usize = 0;
    proof {
        assert(items@.subrange(0, 0) =~= Seq::<ConfigItem>::empty());
        assert(start =~= start + directives_of(items_view(items@.subrange(0, 0))));
    }
    while i < items.len()
        invariant
            i <= items@.len(),
            directive_refs_view(out@) == start + directives_of(
                items_view(items@.subrange(0, i as int)),
            ),
        decreases items@.len() - i,
    {
        proof {
            let pre = items@.subrange(0, i as int);
            let pre1 = items@.subrange(0, i + 1);
            assert(pre1.subrange(0, i as int) =~= pre);
            assert(items_view(pre1) == items_view(pre).push(item_view(items@[i as int])));
            assert(items_view(pre1).drop_last() =~= items_view(pre));
        }
        match &items[i] {
            ConfigItem::Directive(d) => {
                proof {
                    lemma_refs_view_push(out@, &**d);
                }
                out.push(&**d);
            },
            _ => {},
        }
        i += 1;
    }
    assert(items@.subrange(0, i as int) =~= items@);
}

/// Pushes all directives of `items`, blocks included, onto `out`
fn collect_all_directives<'a>(items: &'a Vec<ConfigItem>, out: &mut Vec<&'a Directive>)
    ensures
        directive_refs_view(final(out)@) == directive_refs_view(old(out)@) + all_directives_of(
            items_view(items@),
        ),
    decreases items@,
{
    let ghost start = directive_refs_view(out@);
    let mut i: usize = 0;
    proof {
        assert(items@.subrange(0, 0) =~= Seq::<ConfigItem>::empty());
        assert(start =~= start + all_directives_of(items_view(items@.subrange(0, 0))));
    }
    while i < items.len()
        invariant
            i <= items@.len(),
            directive_refs_view(out@) == start + all_directives_of(
                items_view(items@.subrange(0, i as int)),
            ),
        decreases items@.len() - i,
    {
        let ghost before = directive_refs_view(out@);
        proof {
            let pre = items@.subrange(0, i as int);
            let pre1 = items@.subrange(0, i + 1);
            assert(pre1.subrange(0, i as int) =~= pre);
            assert(items_view(pre1) == items_view(pre).push(item_view(items@[i as int])));
            let v1 = items_view(pre1);
            assert(v1.subrange(0, v1.len() - 1) =~= items_view(pre));
        }
        match &items[i] {
            ConfigItem::Directive(d) => {
                proof {
                    lemma_refs_view_push(out@, &**d);
                }
                out.push(&**d);
                match &d.block {
                    Some(b) => {
                        collect_all_directives(&b.items, out);
                    },
                    None => {},
                }
            },
            _ => {},
        }
        proof {
            assert(directive_refs_view(out@) =~= before + all_directives_in(item_view(items@[i as int])));
        }
        i += 1;
    }
    assert(items@.subrange(0, i as int) =~= items@);
}

impl Config {
    /// An empty configuration
    pub fn new() -> (c: Self)
        ensures
            c.items@.len() == 0,
            c.include_context@.len() == 0,
    {
        Config { items: Vec::new(), include_context: Vec::new() }
    }

    /// The top-level directives (not comments or blank lines, not those inside blocks)
    pub fn directives(&self) -> (r: Vec<&Directive>)
        ensures
            directive_refs_view(r@) == directives_of(items_view(self.items@)),
    {
        let mut out: Vec<&Directive> = Vec::new();
        collect_directives(&self.items, &mut out);
        assert(directive_refs_view(out@) =~= directives_of(items_view(self.items@)));
        out
    }

    /// All directives, those inside blocks included, depth first
    pub fn all_directives(&self) -> (r: Vec<&Directive>)
        ensures
            directive_refs_view(r@) == all_directives_of(items_view(self.items@)),
    {
        let mut out: Vec<&Directive> = Vec::new();
        collect_all_directives(&self.items, &mut out);
        assert(directive_refs_view(out@) =~= all_directives_of(items_view(self.items@)));
        out
    }
}

impl Block {
    /// The directives directly in this block
    pub fn directives(&self) -> (r: Vec<&Directive>)
        ensures
            directive_refs_view(r@) == directives_of(items_view(self.items@)),
    {
        let mut out: Vec<&Directive> = Vec::new();
        collect_directives(&self.items, &mut out);
        assert(directive_refs_view(out@) =~= directives_of(items_view(self.items@)));
        out
    }

    /// The block holds raw text (such as Lua code) rather than items
    pub fn is_raw(&self) -> (r: bool)
        ensures
            r == (self.raw_content is Some),
    {
        self.raw_content.is_some()
    }
}

impl Argument {
    /// The value (without quotes for quoted strings, without `$` for variables)
    pub fn as_str(&self) -> (s: &str)
        ensures
            s@ == self.value.text(),
    {
        match &self.value {
            ArgumentValue::Literal(s) => s.as_str(),
            ArgumentValue::QuotedString(s) => s.as_str(),
            ArgumentValue::SingleQuotedString(s) => s.as_str(),
            ArgumentValue::Variable(s) => s.as_str(),
        }
    }

    /// The value is `on`
    pub fn is_on(&self) -> (r: bool)
        ensures
            r == (self.value.text() == "on"@),
    {
        crate::text::str_eq(self.as_str(), "on")
    }

    /// The value is `off`
    pub fn is_off(&self) -> (r: bool)
        ensures
            r == (self.value.text() == "off"@),
    {
        crate::text::str_eq(self.as_str(), "off")
    }
}

impl Directive {
    /// The directive has the given name
    pub fn is(&self, name: &str) -> (r: bool)
        ensures
            r == (self.name@ == name@),
    {
        crate::text::str_eq(self.name.as_str(), name)
    }

    /// The value of the first argument
    pub fn first_arg(&self) -> (r: Option<&str>)
        ensures
            self.args@.len() == 0 ==> r is None,
            self.args@.len() > 0 ==> (r matches Some(s) && s@ == self.args@[0].value.text()),
    {
        if self.args.len() > 0 {
            Some(self.args[0].as_str())
        } else {
            None
        }
    }

    /// The first argument's value is `value`
    pub fn first_arg_is(&self, value: &str) -> (r: bool)
        ensures
            r == (self.args@.len() > 0 && self.args@[0].value.text() == value@),
    {
        match self.first_arg() {
            Some(a) => crate::text::str_eq(a, value),
            None => false,
        }
    }
}

// ---------------------------------------------------------------------------
// Writing the source back
// ---------------------------------------------------------------------------

/// The text of the arguments: each one's source text after a blank
pub open spec fn args_source(args: Seq<ArgumentV>) -> Seq<char>
    decreases args.len(),
{
    if args.len() == 0 {
        seq![]
    } else {
        args_source(args.drop_last()) + seq![' '] + args.last().raw
    }
}

pub open spec fn comment_source(c: CommentV) -> Seq<char> {
    c.leading_whitespace + c.text + c.trailing_whitespace
}

/// The source of a sequence of items
pub open spec fn items_source(items: Seq<ConfigItemV>) -> Seq<char>
    decreases items,
{
    if items.len() == 0 {
        seq![]
    } else {
        items_source(items.subrange(0, items.len() - 1)) + item_source(items[items.len() - 1])
    }
}

/// The source of one item, ending with a newline.
///
/// A directive is written as its leading blanks, name and arguments; then the
/// blanks before its terminator and `;`, or `{`, the end of the line, the block's
/// items (or its raw text on lines of its own) and `}` indented like the
/// directive; then its trailing comment.
pub open spec fn item_source(item: ConfigItemV) -> Seq<char>
    decreases item,
{
    match item {
        ConfigItemV::Directive(d) => {
            let head = d.leading_whitespace + d.name + args_source(d.args)
                + d.space_before_terminator;
            let body = match d.block {
                None => seq![';'] + d.trailing_whitespace,
                Some(b) => match b.raw_content {
                    Some(text) => seq!['{', '\n'] + text + seq!['\n'] + d.leading_whitespace
                        + seq!['}'] + b.trailing_whitespace,
                    None => seq!['{'] + d.trailing_whitespace + seq!['\n'] + items_source(
                        b.items,
                    ) + d.leading_whitespace + seq!['}'] + b.trailing_whitespace,
                },
            };
            let tail = match d.trailing_comment {
                Some(c) => comment_source(c),
                None => seq![],
            };
            head + body + tail + seq!['\n']
        },
        ConfigItemV::Comment(c) => comment_source(c) + seq!['\n'],
        ConfigItemV::BlankLine(b) => b.content + seq!['\n'],
    }
}

fn write_comment(c: &Comment, out: &mut String)
    ensures
        final(out)@ == old(out)@ + comment_source(c@),
{
    out.append(c.leading_whitespace.as_str());
    out.append(c.text.as_str());
    out.append(c.trailing_whitespace.as_str());
}

fn write_items(items: &Vec<ConfigItem>, out: &mut String)
    ensures
        final(out)@ == old(out)@ + items_source(items_view(items@)),
    decreases items@,
{
    let ghost start = out@;
    let mut i: usize = 0;
    proof {
        assert(items@.subrange(0, 0) =~= Seq::<ConfigItem>::empty());
        assert(start =~= start + items_source(items_view(items@.subrange(0, 0))));
    }
    while i < items.len()
        invariant
            i <= items@.len(),
            out@ == start + items_source(items_view(items@.subrange(0, i as int))),
        decreases items@.len() - i,
    {
        let ghost before = out@;
        proof {
            let pre = items@.subrange(0, i as int);
            let pre1 = items@.subrange(0, i + 1);
            assert(pre1.subrange(0, i as int) =~= pre);
            assert(items_view(pre1) == items_view(pre).push(item_view(items@[i as int])));
            let v1 = items_view(pre1);
            assert(v1.subrange(0, v1.len() - 1) =~= items_view(pre));
        }
        write_item(&items[i], out);
        proof {
            assert(out@ =~= start + items_source(items_view(items@.subrange(0, i + 1))));
        }
        i += 1;
    }
    assert(items@.subrange(0, i as int) =~= items@);
}

fn write_item(item: &ConfigItem, out: &mut String)
    ensures
        final(out)@ == old(out)@ + item_source(item_view(*item)),
    decreases item,
{
    match item {
        ConfigItem::Directive(d) => {
            let ghost start = out@;
            out.append(d.leading_whitespace.as_str());
            out.append(d.name.as_str());
            let mut k: usize = 0;
            proof {
                assert(args_view(d.args@).subrange(0, 0) =~= Seq::<ArgumentV>::empty());
                assert(out@ =~= start + d.leading_whitespace@ + d.name@ + args_source(
                    args_view(d.args@).subrange(0, 0),
                ));
            }
            while k < d.args.len()
                invariant
                    k <= d.args@.len(),
                    out@ == start + d.leading_whitespace@ + d.name@ + args_source(
                        args_view(d.args@).subrange(0, k as int),
                    ),
                decreases d.args@.len() - k,
            {
                crate::text::push_char(out, ' ');
                out.append(d.args[k].raw.as_str());
                proof {
                    let av = args_view(d.args@);
                    assert(av.subrange(0, k + 1).drop_last() =~= av.subrange(0, k as int));
                    assert(av[k as int] == d.args@[k as int]@);
                }
                k += 1;
            }
            proof {
                assert(args_view(d.args@).subrange(0, k as int) =~= args_view(d.args@));
            }
            out.append(d.space_before_terminator.as_str());
            match &d.block {
                None => {
                    crate::text::push_char(out, ';');
                    out.append(d.trailing_whitespace.as_str());
                },
                Some(b) => match &b.raw_content {
                    Some(text) => {
                        crate::text::push_char(out, '{');
                        crate::text::push_char(out, '\n');
                        out.append(text.as_str());
                        crate::text::push_char(out, '\n');
                        out.append(d.leading_whitespace.as_str());
                        crate::text::push_char(out, '}');
                        out.append(b.trailing_whitespace.as_str());
                    },
                    None => {
                        crate::text::push_char(out, '{');
                        out.append(d.trailing_whitespace.as_str());
                        crate::text::push_char(out, '\n');
                        write_items(&b.items, out);
                        out.append(d.leading_whitespace.as_str());
                        crate::text::push_char(out, '}');
                        out.append(b.trailing_whitespace.as_str());
                    },
                },
            }
            match &d.trailing_comment {
                Some(c) => write_comment(c, out),
                None => {},
            }
            crate::text::push_char(out, '\n');
            proof {
                assert(out@ =~= start + item_source(item_view(*item)));
            }
        },
        ConfigItem::Comment(c) => {
            write_comment(c, out);
            crate::text::push_char(out, '\n');
        },
        ConfigItem::BlankLine(b) => {
            out.append(b.content.as_str());
            crate::text::push_char(out, '\n');
        },
    }
}

impl Config {
    /// The source text of the configuration (for autofix), see [`items_source`]
    pub fn to_source(&self) -> (s: String)
        ensures
            s@ == items_source(items_view(self.items@)),
    {
        let mut output = String::new();
        write_items(&self.items, &mut output);
        assert(output@ =~= items_source(items_view(self.items@)));
        output
    }
}

} // verus!
