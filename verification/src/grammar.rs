//! The lexical grammar of the widget-template language, defined over
//! `Seq<char>` as a family of recursive spec functions.
//!
//! Each parsing function takes the source and a position and yields the
//! parsed value together with the position just past it, or `None` when the
//! text violates the grammar.  The executable parser is proved to agree
//! with these definitions.
//!
//! Shape of a source unit:
//!
//! ```text
//! param <name> [= <value>]                  // zero or more declarations
//! <TypeName> {
//!     <key> = <value>                       // value: bare token, "quoted
//!     <TypeName> { ... }                    // literal", or {{ script }}
//! }
//! ```
//!
//! Whitespace and commas separate tokens freely.  `if`, `for`, `on_change`,
//! `effect` and `breakpoints` open statements that are recognized (an
//! optional parenthesized header, then a block) but not expanded.  A
//! duplicate argument key or parameter name violates the grammar.
//!
//! The definitions are defensive about positions: a sub-parse whose
//! result did not advance, or ran past the end, fails the parse.  That
//! keeps every measure evidently decreasing; the executable parser's
//! proofs show those branches are never taken.

use vstd::prelude::*;

use crate::ast::ArgsV;
use crate::ast::InstV;
use crate::ast::OtherKind;
use crate::ast::OtherV;
use crate::ast::ParamV;
use crate::ast::StmtV;
use crate::ast::TemplateV;
use crate::ast::arg_has;
use crate::ast::params_has;

verus! {

// ---------------------------------------------------------------------------
// Character classes
// ---------------------------------------------------------------------------

/// Whitespace, and the comma, which separates like whitespace.
pub open spec fn is_blank_char(c: char) -> bool {
    c == ' ' || c == '\t' || c == '\r' || c == '\n' || c == ','
}

pub open spec fn is_ident_start_char(c: char) -> bool {
    ('a' as u32 <= c as u32 && c as u32 <= 'z' as u32) || ('A' as u32 <= c as u32 && c as u32
        <= 'Z' as u32) || c == '_'
}

pub open spec fn is_ident_char(c: char) -> bool {
    is_ident_start_char(c) || ('0' as u32 <= c as u32 && c as u32 <= '9' as u32)
}

/// Characters a bare (unquoted) value token may hold.
pub open spec fn is_bare_char(c: char) -> bool {
    is_ident_char(c) || c == '.' || c == '-'
}

// ---------------------------------------------------------------------------
// Scanners
// ---------------------------------------------------------------------------

/// The first position at or after `i` that holds no blank character.
pub open spec fn skip_blank(s: Seq<char>, i: int) -> int
    decreases s.len() - i,
{
    if i < s.len() && 0 <= i && is_blank_char(s[i]) {
        skip_blank(s, i + 1)
    } else {
        i
    }
}

/// The first position at or after `i` that holds no identifier character.
pub open spec fn ident_end(s: Seq<char>, i: int) -> int
    decreases s.len() - i,
{
    if i < s.len() && 0 <= i && is_ident_char(s[i]) {
        ident_end(s, i + 1)
    } else {
        i
    }
}

/// The first position at or after `i` that holds no bare-token character.
pub open spec fn bare_end(s: Seq<char>, i: int) -> int
    decreases s.len() - i,
{
    if i < s.len() && 0 <= i && is_bare_char(s[i]) {
        bare_end(s, i + 1)
    } else {
        i
    }
}

/// The first position at or after `i` holding `'"'` or a newline, or the
/// end of the source.  Quoted literals close on the same line.
pub open spec fn lit_end(s: Seq<char>, i: int) -> int
    decreases s.len() - i,
{
    if i < s.len() && 0 <= i && s[i] != '"' && s[i] != '\n' {
        lit_end(s, i + 1)
    } else {
        i
    }
}

/// The first position at or after `i` holding `')'` or a newline, or the
/// end of the source.  Statement headers close on the same line.
pub open spec fn paren_close(s: Seq<char>, i: int) -> int
    decreases s.len() - i,
{
    if i < s.len() && 0 <= i && s[i] != ')' && s[i] != '\n' {
        paren_close(s, i + 1)
    } else {
        i
    }
}

/// The first position at or after `i` where `}}` begins, or the length of
/// the source when no such pair follows.
pub open spec fn script_close(s: Seq<char>, i: int) -> int
    decreases s.len() - i,
{
    if i + 2 > s.len() || i < 0 {
        s.len() as int
    } else if s[i] == '}' && s[i + 1] == '}' {
        i
    } else {
        script_close(s, i + 1)
    }
}

// ---------------------------------------------------------------------------
// Tokens
// ---------------------------------------------------------------------------

/// An identifier: an identifier-start character followed by identifier
/// characters, taken maximally.
pub open spec fn parse_ident(s: Seq<char>, i: int) -> Option<(Seq<char>, int)> {
    if 0 <= i < s.len() && is_ident_start_char(s[i]) {
        Some((s.subrange(i, ident_end(s, i)), ident_end(s, i)))
    } else {
        None
    }
}

/// A value: a quoted literal (yielding the text between the quotes), a
/// script block (yielding the token with its `{{` `}}` delimiters, carried
/// through unevaluated), or a bare token.
pub open spec fn parse_value(s: Seq<char>, i: int) -> Option<(Seq<char>, int)> {
    if 0 <= i < s.len() && s[i] == '"' {
        let e = lit_end(s, i + 1);
        if e < s.len() && s[e] == '"' {
            Some((s.subrange(i + 1, e), e + 1))
        } else {
            None
        }
    } else if 0 <= i && i + 1 < s.len() && s[i] == '{' && s[i + 1] == '{' {
        let e = script_close(s, i + 2);
        if e < s.len() {
            Some((s.subrange(i, e + 2), e + 2))
        } else {
            None
        }
    } else {
        let e = bare_end(s, i);
        if 0 <= i < e {
            Some((s.subrange(i, e), e))
        } else {
            None
        }
    }
}

/// Maps the keywords of recognized-but-unexpanded statements to their kind.
pub open spec fn kw_other(w: Seq<char>) -> Option<OtherKind> {
    if w == "if"@ {
        Some(OtherKind::If)
    } else if w == "for"@ {
        Some(OtherKind::For)
    } else if w == "on_change"@ {
        Some(OtherKind::OnChange)
    } else if w == "effect"@ {
        Some(OtherKind::Effect)
    } else if w == "breakpoints"@ {
        Some(OtherKind::Breakpoints)
    } else {
        None
    }
}

// ---------------------------------------------------------------------------
// Statements and blocks
// ---------------------------------------------------------------------------

/// The parsed contents of a `{ ... }` block: its argument mapping and its
/// child instances.
pub ghost struct BlockV {
    pub args: ArgsV,
    pub children: Seq<InstV>,
}

/// One item inside a block: an argument pair, a child instantiation, or a
/// recognized-but-unexpanded nested statement.
pub ghost enum ItemV {
    Arg(Seq<char>, Seq<char>),
    Child(InstV),
    Nested(OtherV),
}

/// The tail of a `param` declaration, after the keyword: the parameter
/// name, then optionally `=` and a default value.
pub open spec fn parse_param_rest(s: Seq<char>, i: int) -> Option<(ParamV, int)> {
    let i1 = skip_blank(s, i);
    match parse_ident(s, i1) {
        None => None,
        Some((name, j)) => {
            let i2 = skip_blank(s, j);
            if 0 <= i2 < s.len() && s[i2] == '=' {
                let i3 = skip_blank(s, i2 + 1);
                match parse_value(s, i3) {
                    None => None,
                    Some((v, k)) => Some((ParamV { name, default: Some(v) }, k)),
                }
            } else {
                Some((ParamV { name, default: None }, j))
            }
        },
    }
}

/// The tail of a recognized-but-unexpanded statement, after its keyword:
/// an optional parenthesized header, then a block.
pub open spec fn parse_other_rest(s: Seq<char>, i: int, kind: OtherKind) -> Option<(OtherV, int)>
    decreases s.len() - i, 1int,
{
    let i1 = skip_blank(s, i);
    if i1 < i || i1 >= s.len() {
        None
    } else if s[i1] == '(' {
        let h = paren_close(s, i1 + 1);
        if h < s.len() && s[h] == ')' {
            let header = s.subrange(i1 + 1, h);
            let i2 = skip_blank(s, h + 1);
            if i2 <= i1 || i2 >= s.len() {
                None
            } else if s[i2] == '{' {
                match parse_items(s, i2 + 1) {
                    None => None,
                    Some((b, k)) => Some(
                        (OtherV { kind, header, args: b.args, children: b.children }, k),
                    ),
                }
            } else {
                None
            }
        } else {
            None
        }
    } else if s[i1] == '{' {
        match parse_items(s, i1 + 1) {
            None => None,
            Some((b, k)) => Some(
                (OtherV { kind, header: Seq::empty(), args: b.args, children: b.children }, k),
            ),
        }
    } else {
        None
    }
}

/// One block item: `key = value`, a nested `TypeName { ... }`, or a
/// recognized-but-unexpanded statement.
pub open spec fn parse_item(s: Seq<char>, i: int) -> Option<(ItemV, int)>
    decreases s.len() - i, 2int,
{
    match parse_ident(s, i) {
        None => None,
        Some((w, j)) => {
            if j <= i || j > s.len() {
                None
            } else if kw_other(w) is Some {
                match parse_other_rest(s, j, kw_other(w)->0) {
                    None => None,
                    Some((o, k)) => Some((ItemV::Nested(o), k)),
                }
            } else {
                let i2 = skip_blank(s, j);
                if i2 < j || i2 >= s.len() {
                    None
                } else if s[i2] == '=' {
                    let i3 = skip_blank(s, i2 + 1);
                    match parse_value(s, i3) {
                        None => None,
                        Some((v, k)) => Some((ItemV::Arg(w, v), k)),
                    }
                } else if s[i2] == '{' {
                    match parse_items(s, i2 + 1) {
                        None => None,
                        Some((b, k)) => Some(
                            (
                                ItemV::Child(
                                    InstV { widget: w, args: b.args, children: b.children },
                                ),
                                k,
                            ),
                        ),
                    }
                } else {
                    None
                }
            }
        },
    }
}

/// The items of a block up to and past its closing `}`.  A duplicate
/// argument key violates the grammar; a nested recognized-but-unexpanded
/// statement is syntax-checked and dropped.
pub open spec fn parse_items(s: Seq<char>, i: int) -> Option<(BlockV, int)>
    decreases s.len() - i, 3int,
{
    let i1 = skip_blank(s, i);
    if i1 < i || i1 >= s.len() {
        None
    } else if s[i1] == '}' {
        Some((BlockV { args: Seq::empty(), children: Seq::empty() }, i1 + 1))
    } else {
        match parse_item(s, i1) {
            None => None,
            Some((item, j)) => {
                if j <= i1 || j > s.len() {
                    None
                } else {
                    match parse_items(s, j) {
                        None => None,
                        Some((rest, k)) => match item {
                            ItemV::Arg(key, v) => {
                                if arg_has(rest.args, key) {
                                    None
                                } else {
                                    Some(
                                        (
                                            BlockV {
                                                args: seq![(key, v)] + rest.args,
                                                children: rest.children,
                                            },
                                            k,
                                        ),
                                    )
                                }
                            },
                            ItemV::Child(c) => Some(
                                (
                                    BlockV {
                                        args: rest.args,
                                        children: seq![c] + rest.children,
                                    },
                                    k,
                                ),
                            ),
                            ItemV::Nested(_) => Some((rest, k)),
                        },
                    }
                }
            },
        }
    }
}

/// One top-level statement: a `param` declaration, a widget
/// instantiation, or a recognized-but-unexpanded statement.
pub open spec fn parse_statement(s: Seq<char>, i: int) -> Option<(StmtV, int)>
    decreases s.len() - i, 2int,
{
    match parse_ident(s, i) {
        None => None,
        Some((w, j)) => {
            if j <= i || j > s.len() {
                None
            } else if w == "param"@ {
                match parse_param_rest(s, j) {
                    None => None,
                    Some((p, k)) => Some((StmtV::Param(p), k)),
                }
            } else if kw_other(w) is Some {
                match parse_other_rest(s, j, kw_other(w)->0) {
                    None => None,
                    Some((o, k)) => Some((StmtV::Other(o), k)),
                }
            } else {
                let i2 = skip_blank(s, j);
                if i2 < j || i2 >= s.len() {
                    None
                } else if s[i2] == '{' {
                    match parse_items(s, i2 + 1) {
                        None => None,
                        Some((b, k)) => Some(
                            (
                                StmtV::Widget(
                                    InstV { widget: w, args: b.args, children: b.children },
                                ),
                                k,
                            ),
                        ),
                    }
                } else {
                    None
                }
            }
        },
    }
}

/// The statements of a whole source unit, down to its end.
pub open spec fn parse_stmts(s: Seq<char>, i: int) -> Option<(Seq<StmtV>, int)>
    decreases s.len() - i, 3int,
{
    let i1 = skip_blank(s, i);
    if i1 < i || i1 > s.len() {
        None
    } else if i1 == s.len() {
        Some((Seq::empty(), i1))
    } else {
        match parse_statement(s, i1) {
            None => None,
            Some((st, j)) => {
                if j <= i1 || j > s.len() {
                    None
                } else {
                    match parse_stmts(s, j) {
                        None => None,
                        Some((rest, k)) => Some((seq![st] + rest, k)),
                    }
                }
            },
        }
    }
}

// ---------------------------------------------------------------------------
// Whole units
// ---------------------------------------------------------------------------

/// The statement list of a whole source unit, or `None` when the text
/// violates the grammar.
pub open spec fn parse_source_spec(s: Seq<char>) -> Option<Seq<StmtV>> {
    match parse_stmts(s, 0) {
        None => None,
        Some((ss, _)) => Some(ss),
    }
}

/// The declared parameters of a statement list, in declaration order, or
/// `None` when a name is declared twice.
pub open spec fn collect_params(ss: Seq<StmtV>) -> Option<Seq<ParamV>>
    decreases ss.len(),
{
    if ss.len() == 0 {
        Some(Seq::empty())
    } else {
        match collect_params(ss.subrange(1, ss.len() as int)) {
            None => None,
            Some(rest) => match ss[0] {
                StmtV::Param(p) => {
                    if params_has(rest, p.name) {
                        None
                    } else {
                        Some(seq![p] + rest)
                    }
                },
                _ => Some(rest),
            },
        }
    }
}

/// The widget instantiations of a statement list, in source order.
pub open spec fn collect_body(ss: Seq<StmtV>) -> Seq<InstV>
    decreases ss.len(),
{
    if ss.len() == 0 {
        Seq::empty()
    } else {
        match ss[0] {
            StmtV::Widget(w) => seq![w] + collect_body(ss.subrange(1, ss.len() as int)),
            _ => collect_body(ss.subrange(1, ss.len() as int)),
        }
    }
}

/// The template a statement list denotes, under the given unit name.
pub open spec fn template_of(ss: Seq<StmtV>, name: Seq<char>) -> Option<TemplateV> {
    match collect_params(ss) {
        None => None,
        Some(ps) => Some(TemplateV { name, params: ps, body: collect_body(ss) }),
    }
}

/// The template a whole source unit denotes, or `None` when the unit
/// violates the grammar.
pub open spec fn parse_template_spec(s: Seq<char>, name: Seq<char>) -> Option<TemplateV> {
    match parse_source_spec(s) {
        None => None,
        Some(ss) => template_of(ss, name),
    }
}

/// Parsing is a function of the source text alone: re-parsing identical
/// text yields a structurally identical template.
pub proof fn lemma_reparse_stable(s: Seq<char>, name: Seq<char>, t1: TemplateV, t2: TemplateV)
    requires
        parse_template_spec(s, name) == Some(t1),
        parse_template_spec(s, name) == Some(t2),
    ensures
        t1 == t2,
{
}

} // verus!
