//! Third-party notices of the plugin SDK: the notices of the code compiled
//! into its Lua runtime, each under a heading naming the component, then
//! the notices of the Rust crates compiled into the SDK binary.
use vstd::prelude::*;
use crate::text::{chars_of, string_from_range, trim_end_bound, trim_end_seq};

verus! {

/// One embedded component: its name, what of it is in the runtime, and its
/// license text
#[derive(Debug, Clone)]
pub struct Notice {
    pub component: String,
    pub scope: String,
    pub text: String,
}

/// Model of a [`Notice`]
pub ghost struct NoticeV {
    pub component: Seq<char>,
    pub scope: Seq<char>,
    pub text: Seq<char>,
}

impl View for Notice {
    type V = NoticeV;

    open spec fn view(&self) -> NoticeV {
        NoticeV { component: self.component@, scope: self.scope@, text: self.text@ }
    }
}

pub open spec fn notices_view(v: Seq<Notice>) -> Seq<NoticeV> {
    v.map_values(|n: Notice| n@)
}

/// A line of 72 times `c`
pub open spec fn rule_of(c: char) -> Seq<char> {
    Seq::new(72, |i: int| c)
}

/// What comes before the notices
pub open spec fn notices_header() -> Seq<char> {
    "nginx-lint-plugin-sdk embeds a Lua runtime, compiled to WebAssembly, in this binary and in every plugin it builds. The runtime contains the following third-party code.\n"@
}

/// What separates the runtime's notices from the crates'
pub open spec fn crates_preface() -> Seq<char> {
    "\n\nThe Rust crates below are in the nginx-lint-plugin-sdk binary only; the plugins it builds contain none of them.\n\n"@
}

/// The block of one notice: a heading between two lines of `=` naming the
/// component and its scope, then the text without its trailing whitespace
pub open spec fn notice_block(n: NoticeV) -> Seq<char> {
    "\n\n"@ + rule_of('=') + "\n"@ + n.component + "\n"@ + n.scope + "\n"@ + rule_of('=') + "\n\n"@
        + trim_end_seq(n.text) + "\n"@
}

/// The blocks of the notices `ns`, in order
pub open spec fn notice_blocks(ns: Seq<NoticeV>) -> Seq<char>
    decreases ns.len(),
{
    if ns.len() == 0 {
        seq![]
    } else {
        notice_blocks(ns.drop_last()) + notice_block(ns.last())
    }
}

/// Every notice of `ns` under its heading, then the crates' notices
pub open spec fn rendered_notices(ns: Seq<NoticeV>, crates: Seq<char>) -> Seq<char> {
    notices_header() + notice_blocks(ns) + "\n\n"@ + rule_of('#') + crates_preface() + crates
}

/// Appends a line of 72 times `c`
fn push_rule(out: &mut String, c: char)
    ensures
        final(out)@ == old(out)@ + rule_of(c),
{
    let ghost start = out@;
    for k in 0..72usize
        invariant
            out@ == start + Seq::new(k as nat, |i: int| c),
    {
        crate::text::push_char(out, c);
        assert(out@ =~= start + Seq::new((k + 1) as nat, |i: int| c));
    }
    assert(Seq::new(72nat, |i: int| c) =~= rule_of(c));
}

/// The notices `notices` of the runtime's components, each under a heading
/// naming it, followed by the crates' notices `crates`
pub fn render(notices: &Vec<Notice>, crates: &str) -> (s: String)
    ensures
        s@ == rendered_notices(notices_view(notices@), crates@),
{
    let ghost nv = notices_view(notices@);
    let mut out = "nginx-lint-plugin-sdk embeds a Lua runtime, compiled to WebAssembly, in this binary and in every plugin it builds. The runtime contains the following third-party code.\n".to_owned();
    assert(nv.take(0) =~= Seq::<NoticeV>::empty());
    for k in 0..notices.len()
        invariant
            nv == notices_view(notices@),
            out@ == notices_header() + notice_blocks(nv.take(k as int)),
    {
        let ghost before = out@;
        assert(nv.take(k + 1).drop_last() =~= nv.take(k as int));
        assert(nv.take(k + 1).last() == notices@[k as int]@);
        let n = &notices[k];
        out.append("\n\n");
        push_rule(&mut out, '=');
        out.append("\n");
        out.append(n.component.as_str());
        out.append("\n");
        out.append(n.scope.as_str());
        out.append("\n");
        push_rule(&mut out, '=');
        out.append("\n\n");
        let cs = chars_of(n.text.as_str());
        let end = trim_end_bound(cs.as_slice(), 0, cs.len());
        assert(cs@.subrange(0, cs@.len() as int) =~= cs@);
        let trimmed = string_from_range(cs.as_slice(), 0, end);
        out.append(trimmed.as_str());
        out.append("\n");
        assert(out@ =~= before + notice_block(n@));
    }
    assert(nv.take(notices@.len() as int) =~= nv);
    out.append("\n\n");
    push_rule(&mut out, '#');
    out.append("\n\nThe Rust crates below are in the nginx-lint-plugin-sdk binary only; the plugins it builds contain none of them.\n\n");
    out.append(crates);
    out
}

} // verus!
