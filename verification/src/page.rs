//! The Document Assembler: emits the Markdown page in two ordered parts —
//! the per-license dependency listing, then the full texts of every
//! referenced license and exception, sorted and deduplicated — and aborts
//! before emitting anything when an expression carries a non-SPDX item.

use vstd::prelude::*;

use crate::group::{view_groups, LicenseGroup, LicenseGroupV};
use crate::model::{part_name, DependencyRecordV, LicensePart, LicensePartV};
use crate::opt::ToMarkdownPageOpt;
use crate::parts::{
    collect_parts, dedup_parts_spec, groups_have_other, groups_parts, reqs_have_other, view_parts,
};
use crate::resolve::{resolve_spec, ResolvedText, ResolvedTextV};
use crate::store::{TextEntryV, TextStore};
use crate::strutil::{dec_str, push_char, usize_to_string};
use vstd::string::StringExecFns;

verus! {

/// Why page generation aborted.
#[derive(Debug)]
pub enum PageError {
    /// A license expression references a non-SPDX custom license: the page
    /// has no text to print for it, and silently skipping it would make the
    /// document legally misleading.
    UnsupportedLicenseItem { expression: String },
    /// A referenced identifier is known neither to the Text Store nor to
    /// the secondary reference database.
    UnresolvedIdentifier { name: String },
}

/// Ghost image of a `PageError`.
pub ghost enum PageErrorV {
    UnsupportedLicenseItem { expression: Seq<char> },
    UnresolvedIdentifier { name: Seq<char> },
}

impl View for PageError {
    type V = PageErrorV;

    open spec fn view(&self) -> PageErrorV {
        match self {
            PageError::UnsupportedLicenseItem { expression } => {
                PageErrorV::UnsupportedLicenseItem { expression: expression@ }
            },
            PageError::UnresolvedIdentifier { name } => {
                PageErrorV::UnresolvedIdentifier { name: name@ }
            },
        }
    }
}

/// How a license body is rendered in the text section: wrapped verbatim in
/// a fenced code block, or block-quoted line by line. One style is used
/// consistently for a whole page.
#[derive(Clone, Copy, PartialEq, Eq, Structural, Debug)]
pub enum BodyStyle {
    Fenced,
    Quoted,
}

/// Whether a character could be read as Markdown structure in a title.
pub open spec fn is_md_char(c: char) -> bool {
    c == '\\' || c == '`' || c == '*' || c == '_' || c == '{' || c == '}' || c == '[' || c == ']'
        || c == '(' || c == ')' || c == '<' || c == '>' || c == '#' || c == '+' || c == '-'
        || c == '.' || c == '!' || c == '|'
}

/// Markdown escaping: every Markdown-significant character is preceded by a
/// backslash; all others pass through.
pub open spec fn escape_md(s: Seq<char>) -> Seq<char>
    decreases s.len(),
{
    if s.len() == 0 {
        Seq::empty()
    } else {
        escape_md(s.drop_last()) + (if is_md_char(s.last()) {
            seq!['\\', s.last()]
        } else {
            seq![s.last()]
        })
    }
}

/// Escapes Markdown-significant characters, so a rendered title cannot be
/// misread as document structure.
pub fn escape_markdown(s: &str) -> (r: String)
    ensures
        r@ == escape_md(s@),
{
    let len = s.unicode_len();
    let mut out = String::new();
    let mut i: usize = 0;
    while i < len
        invariant
            i <= len,
            len == s@.len(),
            out@ == escape_md(s@.take(i as int)),
        decreases len - i,
    {
        let c = s.get_char(i);
        let escape: bool = c == '\\' || c == '`' || c == '*' || c == '_' || c == '{' || c == '}'
            || c == '[' || c == ']' || c == '(' || c == ')' || c == '<' || c == '>' || c == '#'
            || c == '+' || c == '-' || c == '.' || c == '!' || c == '|';
        assert(escape == is_md_char(c));
        if escape {
            push_char(&mut out, '\\');
        }
        push_char(&mut out, c);
        proof {
            assert(s@.take(i as int + 1).drop_last() =~= s@.take(i as int));
            assert(s@.take(i as int + 1).last() == s@[i as int]);
            assert(out@ =~= escape_md(s@.take(i as int + 1)));
        }
        i = i + 1;
    }
    assert(s@.take(len as int) =~= s@);
    out
}

/// The attribution lines of one dependency: nothing without authors, a
/// singular line for exactly one, a plural list for more, in input order.
pub open spec fn author_bullets(authors: Seq<Seq<char>>) -> Seq<char>
    decreases authors.len(),
{
    if authors.len() == 0 {
        Seq::empty()
    } else {
        author_bullets(authors.drop_last()) + "    - "@ + authors.last() + seq!['\n']
    }
}

/// See `author_bullets`; the three author cases.
pub open spec fn author_lines(authors: Seq<Seq<char>>) -> Seq<char> {
    if authors.len() == 0 {
        Seq::empty()
    } else if authors.len() == 1 {
        "  - Primary author: "@ + authors[0] + seq!['\n']
    } else {
        "  - Primary authors:\n"@ + author_bullets(authors)
    }
}

/// The listing entry of one dependency: name, version, repository link and
/// author attribution.
pub open spec fn member_md(m: DependencyRecordV) -> Seq<char> {
    "- "@ + m.name + seq![' '] + m.version + "\n  - Repository: "@ + m.repository + seq!['\n']
        + author_lines(m.authors)
}

/// The listing entries of a member sequence, in order.
pub open spec fn members_md(ms: Seq<DependencyRecordV>) -> Seq<char>
    decreases ms.len(),
{
    if ms.len() == 0 {
        Seq::empty()
    } else {
        members_md(ms.drop_last()) + member_md(ms.last())
    }
}

/// One group of the listing: a heading carrying the expression and the
/// member count, with singular or plural noun, then the members.
pub open spec fn group_md(g: LicenseGroupV) -> Seq<char> {
    "\n## `"@ + g.expression.text + "`\n\nUsed by "@ + dec_str(g.members.len()) + seq![' '] + (
    if g.members.len() == 1 {
        "crate"@
    } else {
        "crates"@
    }) + ":\n\n"@ + members_md(g.members)
}

/// The whole listing section, groups in their sorted order.
pub open spec fn listing_md(gs: Seq<LicenseGroupV>) -> Seq<char>
    decreases gs.len(),
{
    if gs.len() == 0 {
        Seq::empty()
    } else {
        listing_md(gs.drop_last()) + group_md(gs.last())
    }
}

/// A body without its final line break, if it has one.
pub open spec fn trim_nl(s: Seq<char>) -> Seq<char> {
    if s.len() > 0 && s.last() == '\n' {
        s.drop_last()
    } else {
        s
    }
}

/// The interior of a block quote: every line break starts the next quoted
/// line.
pub open spec fn quote_inner(s: Seq<char>) -> Seq<char>
    decreases s.len(),
{
    if s.len() == 0 {
        Seq::empty()
    } else {
        quote_inner(s.drop_last()) + (if s.last() == '\n' {
            seq!['\n', '>', ' ']
        } else {
            seq![s.last()]
        })
    }
}

/// A body rendered in the chosen style: fenced verbatim, or block-quoted
/// with each line prefixed by a quote marker.
pub open spec fn body_block(b: Seq<char>, style: BodyStyle) -> Seq<char> {
    match style {
        BodyStyle::Fenced => "```text\n"@ + b + "```\n"@,
        BodyStyle::Quoted => "> "@ + quote_inner(trim_nl(b)) + seq!['\n'],
    }
}

/// One entry of the text section: the escaped title as a heading, then the
/// body.
pub open spec fn entry_md(rt: ResolvedTextV, style: BodyStyle) -> Seq<char> {
    "\n## "@ + escape_md(rt.title) + "\n\n"@ + body_block(rt.body, style)
}

/// The whole text section over the collected parts, in their sorted order;
/// nothing when some part cannot be resolved.
pub open spec fn texts_md(
    ps: Seq<LicensePartV>,
    store: Seq<TextEntryV>,
    style: BodyStyle,
) -> Option<Seq<char>>
    decreases ps.len(),
{
    if ps.len() == 0 {
        Some(Seq::empty())
    } else {
        match (texts_md(ps.drop_last(), store, style), resolve_spec(ps.last(), store)) {
            (Some(acc), Some(rt)) => Some(acc + entry_md(rt, style)),
            _ => None,
        }
    }
}

/// The front matter: the optional leading section, the listing heading, and
/// the optional preamble under it.
pub open spec fn front_md(
    preamble_section: Option<Seq<char>>,
    listing_preamble: Option<Seq<char>>,
) -> Seq<char> {
    (match preamble_section {
        Some(p) => p + "\n\n"@,
        None => Seq::empty(),
    }) + "# Crate Licenses\n"@ + (match listing_preamble {
        Some(p) => seq!['\n'] + p + seq!['\n'],
        None => Seq::empty(),
    })
}

/// The whole page, or nothing when some referenced identifier cannot be
/// resolved. (A non-SPDX item is handled before this specification
/// applies.)
pub open spec fn page_spec(
    gs: Seq<LicenseGroupV>,
    store: Seq<TextEntryV>,
    style: BodyStyle,
    preamble_section: Option<Seq<char>>,
    listing_preamble: Option<Seq<char>>,
) -> Option<Seq<char>> {
    match texts_md(dedup_parts_spec(groups_parts(gs)), store, style) {
        Some(t) => Some(
            front_md(preamble_section, listing_preamble) + listing_md(gs)
                + "\n# License and Exception Full Texts\n"@ + t,
        ),
        None => None,
    }
}

/// Appends the listing entry of one dependency.
fn append_member(out: &mut String, m: &crate::model::DependencyRecord)
    ensures
        final(out)@ == old(out)@ + member_md(m@),
{
    let ghost start = out@;
    out.append("- ");
    out.append(m.name.as_str());
    push_char(out, ' ');
    out.append(m.version.as_str());
    out.append("\n  - Repository: ");
    out.append(m.repository.as_str());
    push_char(out, '\n');
    let ghost mid = out@;
    let alen = m.authors.len();
    if alen == 0 {
        assert(author_lines(m@.authors) =~= Seq::<char>::empty());
        assert(out@ =~= start + member_md(m@));
    } else if alen == 1 {
        out.append("  - Primary author: ");
        out.append(m.authors[0].as_str());
        push_char(out, '\n');
        assert(m@.authors[0] == m.authors@[0]@);
        assert(out@ =~= start + member_md(m@));
    } else {
        out.append("  - Primary authors:\n");
        let ghost base = out@;
        let mut i: usize = 0;
        while i < alen
            invariant
                i <= alen,
                alen == m.authors.len(),
                alen >= 2,
                base == mid + "  - Primary authors:\n"@,
                out@ == base + author_bullets(m@.authors.take(i as int)),
                m@.authors == crate::model::view_strings(m.authors@),
            decreases alen - i,
        {
            out.append("    - ");
            out.append(m.authors[i].as_str());
            push_char(out, '\n');
            proof {
                assert(m@.authors.take(i as int + 1).drop_last() =~= m@.authors.take(i as int));
                assert(m@.authors.take(i as int + 1).last() == m@.authors[i as int]);
                assert(m@.authors[i as int] == m.authors@[i as int]@);
                assert(out@ =~= base + author_bullets(m@.authors.take(i as int + 1)));
            }
            i = i + 1;
        }
        assert(m@.authors.take(alen as int) =~= m@.authors);
        assert(out@ =~= start + member_md(m@));
    }
}

/// Appends one group of the listing.
fn append_group(out: &mut String, g: &LicenseGroup)
    ensures
        final(out)@ == old(out)@ + group_md(g@),
{
    let ghost start = out@;
    out.append("\n## `");
    out.append(g.expression.text.as_str());
    out.append("`\n\nUsed by ");
    let n = g.members.len();
    let count = usize_to_string(n);
    out.append(count.as_str());
    push_char(out, ' ');
    if n == 1 {
        out.append("crate");
    } else {
        out.append("crates");
    }
    out.append(":\n\n");
    let ghost base = out@;
    let mut i: usize = 0;
    while i < n
        invariant
            i <= n,
            n == g.members.len(),
            base == start + ("\n## `"@ + g@.expression.text + "`\n\nUsed by "@ + dec_str(
                n as nat,
            ) + seq![' '] + (if n == 1 {
                "crate"@
            } else {
                "crates"@
            }) + ":\n\n"@),
            out@ == base + members_md(g@.members.take(i as int)),
            g@.members == crate::group::view_records(g.members@),
        decreases n - i,
    {
        append_member(out, &g.members[i]);
        proof {
            assert(g@.members.take(i as int + 1).drop_last() =~= g@.members.take(i as int));
            assert(g@.members.take(i as int + 1).last() == g@.members[i as int]);
            assert(g@.members[i as int] == g.members@[i as int]@);
            assert(out@ =~= base + members_md(g@.members.take(i as int + 1)));
        }
        i = i + 1;
    }
    proof {
        assert(g@.members.take(n as int) =~= g@.members);
        assert(g@.members.len() == n as int);
        assert(out@ =~= start + group_md(g@));
    }
}

/// Appends the whole listing section.
fn append_listing(out: &mut String, groups: &Vec<LicenseGroup>)
    ensures
        final(out)@ == old(out)@ + listing_md(view_groups(groups@)),
{
    let ghost start = out@;
    let ghost gsv = view_groups(groups@);
    let n = groups.len();
    let mut i: usize = 0;
    while i < n
        invariant
            i <= n,
            n == groups.len(),
            gsv == view_groups(groups@),
            out@ == start + listing_md(gsv.take(i as int)),
        decreases n - i,
    {
        append_group(out, &groups[i]);
        proof {
            assert(gsv.take(i as int + 1).drop_last() =~= gsv.take(i as int));
            assert(gsv.take(i as int + 1).last() == gsv[i as int]);
            assert(gsv[i as int] == groups@[i as int]@);
            assert(out@ =~= start + listing_md(gsv.take(i as int + 1)));
        }
        i = i + 1;
    }
    assert(gsv.take(n as int) =~= gsv);
}

/// Appends a body in the chosen rendering.
fn append_body(out: &mut String, body: &str, style: BodyStyle)
    ensures
        final(out)@ == old(out)@ + body_block(body@, style),
{
    let ghost start = out@;
    match style {
        BodyStyle::Fenced => {
            out.append("```text\n");
            out.append(body);
            out.append("```\n");
        },
        BodyStyle::Quoted => {
            let len = body.unicode_len();
            let trimmed: &str = if len > 0 && body.get_char(len - 1) == '\n' {
                let t = body.substring_char(0, len - 1);
                proof {
                    assert(t@ =~= trim_nl(body@));
                }
                t
            } else {
                proof {
                    assert(body@ =~= trim_nl(body@));
                }
                body
            };
            out.append("> ");
            let tlen = trimmed.unicode_len();
            let ghost base = out@;
            let mut i: usize = 0;
            while i < tlen
                invariant
                    i <= tlen,
                    tlen == trimmed@.len(),
                    base == start + "> "@,
                    out@ == base + quote_inner(trimmed@.take(i as int)),
                decreases tlen - i,
            {
                let c = trimmed.get_char(i);
                if c == '\n' {
                    out.append("\n> ");
                } else {
                    push_char(out, c);
                }
                proof {
                    assert(trimmed@.take(i as int + 1).drop_last() =~= trimmed@.take(i as int));
                    assert(trimmed@.take(i as int + 1).last() == trimmed@[i as int]);
                    if c == '\n' {
                        vstd::utf8::char_u32_cast(c, c as u32);
                        assert("\n> "@ =~= seq!['\n', '>', ' ']) by {
                            reveal_strlit("\n> ");
                        }
                    }
                    assert(out@ =~= base + quote_inner(trimmed@.take(i as int + 1)));
                }
                i = i + 1;
            }
            push_char(out, '\n');
            proof {
                assert(trimmed@.take(tlen as int) =~= trimmed@);
                assert(out@ =~= start + body_block(body@, style));
            }
        },
    }
}

/// Appends one entry of the text section.
fn append_entry(out: &mut String, rt: &ResolvedText, style: BodyStyle)
    ensures
        final(out)@ == old(out)@ + entry_md(rt@, style),
{
    let ghost start = out@;
    out.append("\n## ");
    let escaped = escape_markdown(rt.title.as_str());
    out.append(escaped.as_str());
    out.append("\n\n");
    append_body(out, rt.body.as_str(), style);
    assert(out@ =~= start + entry_md(rt@, style));
}

/// Appends the whole text section, resolving each collected part in its
/// sorted order; reports the identifier when one cannot be resolved.
fn append_texts(
    out: &mut String,
    parts: &Vec<LicensePart>,
    store: &TextStore,
    style: BodyStyle,
) -> (r: Result<(), PageError>)
    ensures
        match r {
            Ok(_) => texts_md(view_parts(parts@), store@, style) == Some(
                final(out)@.skip(old(out)@.len() as int),
            ) && final(out)@ == old(out)@ + final(out)@.skip(old(out)@.len() as int),
            Err(e) => e@ matches PageErrorV::UnresolvedIdentifier { name } && exists|j: int|
                0 <= j < view_parts(parts@).len() && part_name(
                    #[trigger] view_parts(parts@)[j],
                ) == name && resolve_spec(view_parts(parts@)[j], store@) is None,
        },
{
    let ghost start = out@;
    let ghost psv = view_parts(parts@);
    let n = parts.len();
    let mut i: usize = 0;
    while i < n
        invariant
            i <= n,
            n == parts.len(),
            psv == view_parts(parts@),
            start.len() <= out@.len(),
            out@.take(start.len() as int) == start,
            texts_md(psv.take(i as int), store@, style) == Some(
                out@.skip(start.len() as int),
            ),
        decreases n - i,
    {
        let part = &parts[i];
        assert(part@ == psv[i as int]);
        match part.resolve(store) {
            Some(rt) => {
                append_entry(out, &rt, style);
                proof {
                    assert(psv.take(i as int + 1).drop_last() =~= psv.take(i as int));
                    assert(psv.take(i as int + 1).last() == psv[i as int]);
                    assert(out@.skip(start.len() as int) =~= out@.take(start.len() as int).skip(
                        start.len() as int,
                    ) + out@.skip(start.len() as int));
                    assert(out@.take(start.len() as int) =~= start);
                    assert(out@.skip(start.len() as int) =~= texts_md(
                        psv.take(i as int),
                        store@,
                        style,
                    ).unwrap() + entry_md(rt@, style));
                }
            },
            None => {
                let name: String = match part {
                    LicensePart::License(id) => id.name.clone(),
                    LicensePart::Exception(e) => e.name.clone(),
                };
                assert(part_name(psv[i as int]) == name@);
                return Err(PageError::UnresolvedIdentifier { name });
            },
        }
        i = i + 1;
    }
    assert(psv.take(n as int) =~= psv);
    assert(out@ =~= start + out@.skip(start.len() as int));
    Ok(())
}

/// Assembles the whole page: front matter, the listing section in group
/// order, then the sorted, deduplicated text section. Succeeds exactly when
/// no expression carries a non-SPDX item and every referenced identifier
/// resolves; nothing is produced otherwise.
pub fn assemble(
    groups: &Vec<LicenseGroup>,
    store: &TextStore,
    style: BodyStyle,
    opt: &ToMarkdownPageOpt,
) -> (r: Result<String, PageError>)
    ensures
        match r {
            Ok(doc) => !groups_have_other(view_groups(groups@)) && page_spec(
                view_groups(groups@),
                store@,
                style,
                match opt.preamble_section {
                    Some(p) => Some(p@),
                    None => None,
                },
                match opt.crate_licenses_preamble {
                    Some(p) => Some(p@),
                    None => None,
                },
            ) == Some(doc@),
            Err(e) => match e@ {
                PageErrorV::UnsupportedLicenseItem { expression } => groups_have_other(
                    view_groups(groups@),
                ) && exists|g: int|
                    0 <= g < view_groups(groups@).len() && #[trigger] view_groups(
                        groups@,
                    )[g].expression.text == expression && reqs_have_other(
                        view_groups(groups@)[g].expression.requirements,
                    ),
                PageErrorV::UnresolvedIdentifier { name } => !groups_have_other(
                    view_groups(groups@),
                ) && exists|j: int|
                    0 <= j < dedup_parts_spec(groups_parts(view_groups(groups@))).len()
                        && part_name(
                        #[trigger] dedup_parts_spec(groups_parts(view_groups(groups@)))[j],
                    ) == name && resolve_spec(
                        dedup_parts_spec(groups_parts(view_groups(groups@)))[j],
                        store@,
                    ) is None,
            },
        },
{
    let ghost gsv = view_groups(groups@);
    let parts = match collect_parts(groups) {
        Ok(parts) => parts,
        Err(expression) => {
            return Err(PageError::UnsupportedLicenseItem { expression });
        },
    };
    let mut out = String::new();
    match &opt.preamble_section {
        Some(p) => {
            out.append(p.as_str());
            out.append("\n\n");
        },
        None => {},
    }
    out.append("# Crate Licenses\n");
    match &opt.crate_licenses_preamble {
        Some(p) => {
            push_char(&mut out, '\n');
            out.append(p.as_str());
            push_char(&mut out, '\n');
        },
        None => {},
    }
    let ghost front = out@;
    assert(front == front_md(
        match opt.preamble_section {
            Some(p) => Some(p@),
            None => None,
        },
        match opt.crate_licenses_preamble {
            Some(p) => Some(p@),
            None => None,
        },
    ));
    append_listing(&mut out, groups);
    out.append("\n# License and Exception Full Texts\n");
    let ghost head = out@;
    match append_texts(&mut out, &parts, store, style) {
        Ok(_) => {
            proof {
                assert(out@ =~= head + out@.skip(head.len() as int));
            }
            Ok(out)
        },
        Err(e) => Err(e),
    }
}

} // verus!
