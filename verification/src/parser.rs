//! The executable parser for the widget-template language, proved to agree
//! with the grammar of [`crate::grammar`].
//!
//! Entry point: [`parse_template`], which turns one source unit into a
//! [`Widget`] or a located [`ParseError`].

use vstd::prelude::*;
use vstd::string::StrSliceExecFns;

use crate::ast::Param;
use crate::ast::ParamV;
use crate::ast::Statement;
use crate::ast::StmtV;
use crate::ast::OtherKind;
use crate::ast::OtherStmt;
use crate::ast::Widget;
use crate::ast::WidgetInstance;
use crate::ast::args_view;
use crate::ast::args_wf;
use crate::ast::arg_has;
use crate::ast::inst_view;
use crate::ast::inst_wf;
use crate::ast::insts_view;
use crate::ast::insts_wf;
use crate::ast::other_view;
use crate::ast::param_view;
use crate::ast::params_view;
use crate::ast::params_wf;
use crate::ast::stmt_view;
use crate::ast::stmts_view;
use crate::ast::template_view;
use crate::ast::template_wf;
use crate::grammar;

verus! {

// ---------------------------------------------------------------------------
// Errors
// ---------------------------------------------------------------------------

/// What a syntax error ran into.
#[derive(Debug, Clone, Copy, PartialEq, Eq, Structural)]
pub enum ParseErrorKind {
    ExpectedStatement,
    ExpectedParameterName,
    ExpectedValue,
    ExpectedBlock,
    ExpectedItem,
    UnclosedBlock,
    UnclosedQuote,
    UnclosedScript,
    UnclosedHeader,
    DuplicateArgument,
    DuplicateParameter,
}

/// A syntax error: the character offset it was detected at, and its kind.
/// The offset is translatable to a 1-based line and column with
/// [`crate::diag::line_col`].
#[derive(Debug, Clone, Copy, PartialEq, Eq, Structural)]
pub struct ParseError {
    pub offset: usize,
    pub kind: ParseErrorKind,
}

/// The diagnostic text of each error kind.
pub open spec fn message_of(kind: ParseErrorKind) -> Seq<char> {
    match kind {
        ParseErrorKind::ExpectedStatement => "expected a statement"@,
        ParseErrorKind::ExpectedParameterName => "expected a parameter name"@,
        ParseErrorKind::ExpectedValue => "expected a value"@,
        ParseErrorKind::ExpectedBlock => "expected a block"@,
        ParseErrorKind::ExpectedItem => "expected an argument or a child widget"@,
        ParseErrorKind::UnclosedBlock => "a block is not closed"@,
        ParseErrorKind::UnclosedQuote => "a quoted value is not closed"@,
        ParseErrorKind::UnclosedScript => "a script block is not closed"@,
        ParseErrorKind::UnclosedHeader => "a statement header is not closed"@,
        ParseErrorKind::DuplicateArgument => "an argument key is given twice"@,
        ParseErrorKind::DuplicateParameter => "a parameter is declared twice"@,
    }
}

impl ParseError {
    /// A short description of the error, for diagnostics.
    pub fn message(&self) -> (r: &'static str)
        ensures
            r@ == message_of(self.kind),
    {
        match self.kind {
            ParseErrorKind::ExpectedStatement => "expected a statement",
            ParseErrorKind::ExpectedParameterName => "expected a parameter name",
            ParseErrorKind::ExpectedValue => "expected a value",
            ParseErrorKind::ExpectedBlock => "expected a block",
            ParseErrorKind::ExpectedItem => "expected an argument or a child widget",
            ParseErrorKind::UnclosedBlock => "a block is not closed",
            ParseErrorKind::UnclosedQuote => "a quoted value is not closed",
            ParseErrorKind::UnclosedScript => "a script block is not closed",
            ParseErrorKind::UnclosedHeader => "a statement header is not closed",
            ParseErrorKind::DuplicateArgument => "an argument key is given twice",
            ParseErrorKind::DuplicateParameter => "a parameter is declared twice",
        }
    }
}

// ---------------------------------------------------------------------------
// Characters and string equality
// ---------------------------------------------------------------------------

fn ch_is_blank(c: char) -> (b: bool)
    ensures
        b == grammar::is_blank_char(c),
{
    c == ' ' || c == '\t' || c == '\r' || c == '\n' || c == ','
}

fn ch_is_ident_start(c: char) -> (b: bool)
    ensures
        b == grammar::is_ident_start_char(c),
{
    let u = c as u32;
    ('a' as u32 <= u && u <= 'z' as u32) || ('A' as u32 <= u && u <= 'Z' as u32) || c == '_'
}

fn ch_is_ident(c: char) -> (b: bool)
    ensures
        b == grammar::is_ident_char(c),
{
    let u = c as u32;
    ch_is_ident_start(c) || ('0' as u32 <= u && u <= '9' as u32)
}

fn ch_is_bare(c: char) -> (b: bool)
    ensures
        b == grammar::is_bare_char(c),
{
    ch_is_ident(c) || c == '.' || c == '-'
}

/// Character-wise string equality.
pub fn str_eq(a: &str, b: &str) -> (r: bool)
    ensures
        r == (a@ == b@),
{
    let na = a.unicode_len();
    let nb = b.unicode_len();
    if na != nb {
        return false;
    }
    let mut i: usize = 0;
    while i < na
        invariant
            na == a@.len(),
            na == b@.len(),
            i <= na,
            forall|j: int| 0 <= j < i ==> a@[j] == b@[j],
        decreases na - i,
    {
        if a.get_char(i) != b.get_char(i) {
            return false;
        }
        i += 1;
    }
    proof {
        assert(a@ =~= b@);
    }
    true
}

// ---------------------------------------------------------------------------
// Scanners
// ---------------------------------------------------------------------------

fn skip_blank(s: &str, n: usize, i: usize) -> (r: usize)
    requires
        n == s@.len(),
        i <= n,
    ensures
        i <= r <= n,
        r == grammar::skip_blank(s@, i as int),
    decreases n - i,
{
    if i < n && ch_is_blank(s.get_char(i)) {
        skip_blank(s, n, i + 1)
    } else {
        i
    }
}

fn ident_end(s: &str, n: usize, i: usize) -> (r: usize)
    requires
        n == s@.len(),
        i <= n,
    ensures
        i <= r <= n,
        r == grammar::ident_end(s@, i as int),
    decreases n - i,
{
    if i < n && ch_is_ident(s.get_char(i)) {
        ident_end(s, n, i + 1)
    } else {
        i
    }
}

fn bare_end(s: &str, n: usize, i: usize) -> (r: usize)
    requires
        n == s@.len(),
        i <= n,
    ensures
        i <= r <= n,
        r == grammar::bare_end(s@, i as int),
    decreases n - i,
{
    if i < n && ch_is_bare(s.get_char(i)) {
        bare_end(s, n, i + 1)
    } else {
        i
    }
}

fn lit_end(s: &str, n: usize, i: usize) -> (r: usize)
    requires
        n == s@.len(),
        i <= n,
    ensures
        i <= r <= n,
        r == grammar::lit_end(s@, i as int),
    decreases n - i,
{
    if i < n {
        let c = s.get_char(i);
        if c != '"' && c != '\n' {
            return lit_end(s, n, i + 1);
        }
    }
    i
}

fn paren_close(s: &str, n: usize, i: usize) -> (r: usize)
    requires
        n == s@.len(),
        i <= n,
    ensures
        i <= r <= n,
        r == grammar::paren_close(s@, i as int),
    decreases n - i,
{
    if i < n {
        let c = s.get_char(i);
        if c != ')' && c != '\n' {
            return paren_close(s, n, i + 1);
        }
    }
    i
}

fn script_close(s: &str, n: usize, i: usize) -> (r: usize)
    requires
        n == s@.len(),
        i <= n,
    ensures
        i <= r <= n,
        r == grammar::script_close(s@, i as int),
        r < n ==> r + 2 <= n,
    decreases n - i,
{
    if n - i < 2 {
        n
    } else if s.get_char(i) == '}' && s.get_char(i + 1) == '}' {
        i
    } else {
        script_close(s, n, i + 1)
    }
}

// ---------------------------------------------------------------------------
// Tokens
// ---------------------------------------------------------------------------

fn parse_ident(s: &str, n: usize, i: usize) -> (r: Option<(String, usize)>)
    requires
        n == s@.len(),
        i <= n,
    ensures
        r matches Some(p) ==> {
            &&& grammar::parse_ident(s@, i as int) == Some((p.0@, p.1 as int))
            &&& i < p.1 <= n
        },
        r is None ==> grammar::parse_ident(s@, i as int) is None,
{
    if i < n && ch_is_ident_start(s.get_char(i)) {
        let e = ident_end(s, n, i + 1);
        let w = s.substring_char(i, e).to_owned();
        Some((w, e))
    } else {
        None
    }
}

fn parse_value(s: &str, n: usize, i: usize) -> (r: Result<(String, usize), ParseError>)
    requires
        n == s@.len(),
        i <= n,
    ensures
        r matches Ok(p) ==> {
            &&& grammar::parse_value(s@, i as int) == Some((p.0@, p.1 as int))
            &&& i < p.1 <= n
        },
        r matches Err(e) ==> grammar::parse_value(s@, i as int) is None && e.offset <= n,
{
    if i < n && s.get_char(i) == '"' {
        let e = lit_end(s, n, i + 1);
        if e < n && s.get_char(e) == '"' {
            let v = s.substring_char(i + 1, e).to_owned();
            Ok((v, e + 1))
        } else {
            Err(ParseError { offset: i, kind: ParseErrorKind::UnclosedQuote })
        }
    } else if i < n && i + 1 < n && s.get_char(i) == '{' && s.get_char(i + 1) == '{' {
        let e = script_close(s, n, i + 2);
        if e < n {
            let v = s.substring_char(i, e + 2).to_owned();
            Ok((v, e + 2))
        } else {
            Err(ParseError { offset: i, kind: ParseErrorKind::UnclosedScript })
        }
    } else {
        let e = bare_end(s, n, i);
        if i < e {
            let v = s.substring_char(i, e).to_owned();
            Ok((v, e))
        } else {
            Err(ParseError { offset: i, kind: ParseErrorKind::ExpectedValue })
        }
    }
}

/// Recognizes the keyword of a recognized-but-unexpanded statement.
fn kw_other(w: &str) -> (r: Option<OtherKind>)
    ensures
        r == grammar::kw_other(w@),
{
    if str_eq(w, "if") {
        Some(OtherKind::If)
    } else if str_eq(w, "for") {
        Some(OtherKind::For)
    } else if str_eq(w, "on_change") {
        Some(OtherKind::OnChange)
    } else if str_eq(w, "effect") {
        Some(OtherKind::Effect)
    } else if str_eq(w, "breakpoints") {
        Some(OtherKind::Breakpoints)
    } else {
        None
    }
}

// ---------------------------------------------------------------------------
// Statements and blocks
// ---------------------------------------------------------------------------

/// One parsed block item, mirroring [`grammar::ItemV`].
enum Item {
    Arg(String, String),
    Child(WidgetInstance),
    Nested(OtherStmt),
}

spec fn item_view(it: Item) -> grammar::ItemV {
    match it {
        Item::Arg(k, v) => grammar::ItemV::Arg(k@, v@),
        Item::Child(w) => grammar::ItemV::Child(inst_view(w)),
        Item::Nested(o) => grammar::ItemV::Nested(other_view(o)),
    }
}

spec fn item_wf(it: grammar::ItemV) -> bool {
    match it {
        grammar::ItemV::Arg(_, _) => true,
        grammar::ItemV::Child(w) => inst_wf(w),
        grammar::ItemV::Nested(o) => crate::ast::other_wf(o),
    }
}

/// Whether the argument vector already carries the key.
fn args_has(args: &Vec<(String, String)>, key: &str) -> (b: bool)
    ensures
        b == arg_has(args_view(args@), key@),
{
    let mut i: usize = 0;
    while i < args.len()
        invariant
            i <= args.len(),
            forall|j: int| 0 <= j < i ==> args_view(args@)[j].0 != key@,
        decreases args.len() - i,
    {
        if str_eq(args[i].0.as_str(), key) {
            proof {
                assert(args_view(args@)[i as int].0 == key@);
                crate::ast::lemma_arg_lookup(args_view(args@), key@);
            }
            return true;
        }
        i += 1;
    }
    proof {
        crate::ast::lemma_arg_lookup(args_view(args@), key@);
    }
    false
}

fn parse_other_rest(s: &str, n: usize, i: usize, kind: OtherKind) -> (r: Result<
    (OtherStmt, usize),
    ParseError,
>)
    requires
        n == s@.len(),
        i <= n,
    ensures
        r matches Ok(p) ==> {
            &&& grammar::parse_other_rest(s@, i as int, kind) == Some(
                (other_view(p.0), p.1 as int),
            )
            &&& i < p.1 <= n
            &&& crate::ast::other_wf(other_view(p.0))
        },
        r matches Err(e) ==> grammar::parse_other_rest(s@, i as int, kind) is None && e.offset
            <= n,
    decreases n - i, 1int,
{
    let i1 = skip_blank(s, n, i);
    if i1 >= n {
        return Err(ParseError { offset: i1, kind: ParseErrorKind::ExpectedBlock });
    }
    let c = s.get_char(i1);
    if c == '(' {
        let h = paren_close(s, n, i1 + 1);
        if !(h < n && s.get_char(h) == ')') {
            return Err(ParseError { offset: i1, kind: ParseErrorKind::UnclosedHeader });
        }
        let header = s.substring_char(i1 + 1, h).to_owned();
        let i2 = skip_blank(s, n, h + 1);
        if i2 >= n || s.get_char(i2) != '{' {
            return Err(ParseError { offset: i2, kind: ParseErrorKind::ExpectedBlock });
        }
        match parse_items(s, n, i2 + 1) {
            Err(e) => Err(e),
            Ok((args, children, k)) => Ok((OtherStmt { kind, header, args, children }, k)),
        }
    } else if c == '{' {
        match parse_items(s, n, i1 + 1) {
            Err(e) => Err(e),
            Ok((args, children, k)) => {
                let header = String::new();
                Ok((OtherStmt { kind, header, args, children }, k))
            },
        }
    } else {
        Err(ParseError { offset: i1, kind: ParseErrorKind::ExpectedBlock })
    }
}

fn parse_item(s: &str, n: usize, i: usize) -> (r: Result<(Item, usize), ParseError>)
    requires
        n == s@.len(),
        i <= n,
    ensures
        r matches Ok(p) ==> {
            &&& grammar::parse_item(s@, i as int) == Some((item_view(p.0), p.1 as int))
            &&& i < p.1 <= n
            &&& item_wf(item_view(p.0))
        },
        r matches Err(e) ==> grammar::parse_item(s@, i as int) is None && e.offset <= n,
    decreases n - i, 2int,
{
    match parse_ident(s, n, i) {
        None => Err(ParseError { offset: i, kind: ParseErrorKind::ExpectedItem }),
        Some((w, j)) => match kw_other(w.as_str()) {
            Some(kind) => match parse_other_rest(s, n, j, kind) {
                Err(e) => Err(e),
                Ok((o, k)) => Ok((Item::Nested(o), k)),
            },
            None => {
                let i2 = skip_blank(s, n, j);
                if i2 >= n {
                    Err(ParseError { offset: i2, kind: ParseErrorKind::ExpectedItem })
                } else {
                    let c = s.get_char(i2);
                    if c == '=' {
                        let i3 = skip_blank(s, n, i2 + 1);
                        match parse_value(s, n, i3) {
                            Err(e) => Err(e),
                            Ok((v, k)) => Ok((Item::Arg(w, v), k)),
                        }
                    } else if c == '{' {
                        match parse_items(s, n, i2 + 1) {
                            Err(e) => Err(e),
                            Ok((args, children, k)) => Ok(
                                (Item::Child(WidgetInstance { widget: w, args, children }), k),
                            ),
                        }
                    } else {
                        Err(ParseError { offset: i2, kind: ParseErrorKind::ExpectedItem })
                    }
                }
            },
        },
    }
}

fn parse_items(s: &str, n: usize, i: usize) -> (r: Result<
    (Vec<(String, String)>, Vec<WidgetInstance>, usize),
    ParseError,
>)
    requires
        n == s@.len(),
        i <= n,
    ensures
        r matches Ok(p) ==> {
            &&& grammar::parse_items(s@, i as int) == Some(
                (
                    grammar::BlockV { args: args_view(p.0@), children: insts_view(p.1@) },
                    p.2 as int,
                ),
            )
            &&& i < p.2 <= n
            &&& args_wf(args_view(p.0@))
            &&& insts_wf(insts_view(p.1@))
        },
        r matches Err(e) ==> grammar::parse_items(s@, i as int) is None && e.offset <= n,
    decreases n - i, 3int,
{
    let i1 = skip_blank(s, n, i);
    if i1 == n {
        return Err(ParseError { offset: i1, kind: ParseErrorKind::UnclosedBlock });
    }
    if s.get_char(i1) == '}' {
        let args: Vec<(String, String)> = Vec::new();
        let children: Vec<WidgetInstance> = Vec::new();
        proof {
            assert(args_view(args@) =~= Seq::<(Seq<char>, Seq<char>)>::empty());
        }
        return Ok((args, children, i1 + 1));
    }
    match parse_item(s, n, i1) {
        Err(e) => Err(e),
        Ok((item, j)) => match parse_items(s, n, j) {
            Err(e) => Err(e),
            Ok((mut args, mut children, k)) => match item {
                Item::Arg(key, v) => {
                    if args_has(&args, key.as_str()) {
                        Err(ParseError { offset: i1, kind: ParseErrorKind::DuplicateArgument })
                    } else {
                        let ghost old_args = args@;
                        proof {
                            crate::ast::lemma_args_wf_insert(args_view(old_args), key@, v@);
                        }
                        args.insert(0, (key, v));
                        proof {
                            crate::ast::lemma_args_view_insert0(old_args, args@[0]);
                        }
                        Ok((args, children, k))
                    }
                },
                Item::Child(c) => {
                    let ghost old_children = children@;
                    proof {
                        crate::ast::lemma_insts_wf_cons(inst_view(c), insts_view(old_children));
                        crate::ast::lemma_insts_view_insert0(old_children, c);
                    }
                    children.insert(0, c);
                    Ok((args, children, k))
                },
                Item::Nested(_) => Ok((args, children, k)),
            },
        },
    }
}

fn parse_param_rest(s: &str, n: usize, j: usize) -> (r: Result<(Param, usize), ParseError>)
    requires
        n == s@.len(),
        j <= n,
    ensures
        r matches Ok(p) ==> {
            &&& grammar::parse_param_rest(s@, j as int) == Some((param_view(p.0), p.1 as int))
            &&& j < p.1 <= n
        },
        r matches Err(e) ==> grammar::parse_param_rest(s@, j as int) is None && e.offset <= n,
{
    let i1 = skip_blank(s, n, j);
    match parse_ident(s, n, i1) {
        None => Err(ParseError { offset: i1, kind: ParseErrorKind::ExpectedParameterName }),
        Some((name, k)) => {
            let i2 = skip_blank(s, n, k);
            if i2 < n && s.get_char(i2) == '=' {
                let i3 = skip_blank(s, n, i2 + 1);
                match parse_value(s, n, i3) {
                    Err(e) => Err(e),
                    Ok((v, m)) => Ok((Param { name, default: Some(v) }, m)),
                }
            } else {
                Ok((Param { name, default: None }, k))
            }
        },
    }
}

fn parse_statement(s: &str, n: usize, i: usize) -> (r: Result<(Statement, usize), ParseError>)
    requires
        n == s@.len(),
        i <= n,
    ensures
        r matches Ok(p) ==> {
            &&& grammar::parse_statement(s@, i as int) == Some((stmt_view(p.0), p.1 as int))
            &&& i < p.1 <= n
            &&& crate::ast::stmt_wf(stmt_view(p.0))
        },
        r matches Err(e) ==> grammar::parse_statement(s@, i as int) is None && e.offset <= n,
    decreases n - i, 2int,
{
    match parse_ident(s, n, i) {
        None => Err(ParseError { offset: i, kind: ParseErrorKind::ExpectedStatement }),
        Some((w, j)) => {
            if str_eq(w.as_str(), "param") {
                match parse_param_rest(s, n, j) {
                    Err(e) => Err(e),
                    Ok((p, k)) => Ok((Statement::Param(p), k)),
                }
            } else {
                match kw_other(w.as_str()) {
                    Some(kind) => match parse_other_rest(s, n, j, kind) {
                        Err(e) => Err(e),
                        Ok((o, k)) => Ok((Statement::Other(o), k)),
                    },
                    None => {
                        let i2 = skip_blank(s, n, j);
                        if i2 >= n || s.get_char(i2) != '{' {
                            Err(ParseError { offset: i2, kind: ParseErrorKind::ExpectedBlock })
                        } else {
                            match parse_items(s, n, i2 + 1) {
                                Err(e) => Err(e),
                                Ok((args, children, k)) => Ok(
                                    (
                                        Statement::Widget(
                                            WidgetInstance { widget: w, args, children },
                                        ),
                                        k,
                                    ),
                                ),
                            }
                        }
                    },
                }
            }
        },
    }
}

fn parse_stmts(s: &str, n: usize, i: usize) -> (r: Result<(Vec<Statement>, usize), ParseError>)
    requires
        n == s@.len(),
        i <= n,
    ensures
        r matches Ok(p) ==> {
            &&& grammar::parse_stmts(s@, i as int) == Some((stmts_view(p.0@), p.1 as int))
            &&& i <= p.1 <= n
            &&& crate::ast::stmts_wf(stmts_view(p.0@))
        },
        r matches Err(e) ==> grammar::parse_stmts(s@, i as int) is None && e.offset <= n,
    decreases n - i, 3int,
{
    let i1 = skip_blank(s, n, i);
    if i1 == n {
        let v: Vec<Statement> = Vec::new();
        proof {
            assert(stmts_view(v@) =~= Seq::<StmtV>::empty());
        }
        return Ok((v, i1));
    }
    match parse_statement(s, n, i1) {
        Err(e) => Err(e),
        Ok((st, j)) => match parse_stmts(s, n, j) {
            Err(e) => Err(e),
            Ok((mut rest, k)) => {
                let ghost old_rest = rest@;
                rest.insert(0, st);
                proof {
                    crate::ast::lemma_stmts_view_insert0(old_rest, st);
                    let w = stmts_view(rest@);
                    assert forall|q: int| 0 <= q < w.len() implies crate::ast::stmt_wf(
                        #[trigger] w[q],
                    ) by {
                        if q > 0 {
                            assert(w[q] == stmts_view(old_rest)[q - 1]);
                        }
                    }
                }
                Ok((rest, k))
            },
        },
    }
}

// ---------------------------------------------------------------------------
// Whole units
// ---------------------------------------------------------------------------

/// Whether the parameter vector already declares the name.
fn params_has_x(ps: &Vec<Param>, name: &str) -> (b: bool)
    ensures
        b == crate::ast::params_has(params_view(ps@), name@),
{
    let mut i: usize = 0;
    while i < ps.len()
        invariant
            i <= ps.len(),
            forall|j: int| 0 <= j < i ==> params_view(ps@)[j].name != name@,
        decreases ps.len() - i,
    {
        if str_eq(ps[i].name.as_str(), name) {
            proof {
                assert(params_view(ps@)[i as int].name == name@);
            }
            return true;
        }
        i += 1;
    }
    false
}

/// Splits a statement list into its declared parameters (in order, each
/// name declared once) and its widget body.  Recognized-but-unexpanded
/// statements are dropped here; a duplicate parameter declaration is an
/// error.
fn collect(stmts: Vec<Statement>) -> (r: Result<(Vec<Param>, Vec<WidgetInstance>), ParseError>)
    requires
        crate::ast::stmts_wf(stmts_view(stmts@)),
    ensures
        r matches Ok(p) ==> {
            &&& grammar::collect_params(stmts_view(stmts@)) == Some(params_view(p.0@))
            &&& grammar::collect_body(stmts_view(stmts@)) == insts_view(p.1@)
            &&& params_wf(params_view(p.0@))
            &&& insts_wf(insts_view(p.1@))
        },
        r matches Err(e) ==> grammar::collect_params(stmts_view(stmts@)) is None && e.offset
            == 0,
    decreases stmts@.len(),
{
    let mut work = stmts;
    if work.len() == 0 {
        let ps: Vec<Param> = Vec::new();
        let body: Vec<WidgetInstance> = Vec::new();
        proof {
            assert(stmts_view(work@).len() == 0);
            assert(params_view(ps@) =~= Seq::<ParamV>::empty());
        }
        return Ok((ps, body));
    }
    let st = work.remove(0);
    let ghost sv = stmts_view(stmts@);
    proof {
        assert(stmts_view(work@) =~= sv.subrange(1, sv.len() as int));
        assert(sv[0] == stmt_view(st));
        assert forall|q: int| 0 <= q < stmts_view(work@).len() implies crate::ast::stmt_wf(
            #[trigger] stmts_view(work@)[q],
        ) by {
            assert(stmts_view(work@)[q] == sv[q + 1]);
        }
    }
    match collect(work) {
        Err(e) => Err(e),
        Ok((mut ps, mut body)) => match st {
            Statement::Param(p) => {
                if params_has_x(&ps, p.name.as_str()) {
                    Err(ParseError { offset: 0, kind: ParseErrorKind::DuplicateParameter })
                } else {
                    let ghost old_ps = ps@;
                    proof {
                        crate::ast::lemma_params_wf_insert(params_view(old_ps), param_view(p));
                    }
                    ps.insert(0, p);
                    proof {
                        crate::ast::lemma_params_view_insert0(old_ps, ps@[0]);
                    }
                    Ok((ps, body))
                }
            },
            Statement::Widget(w) => {
                let ghost old_body = body@;
                proof {
                    crate::ast::lemma_insts_wf_cons(inst_view(w), insts_view(old_body));
                    crate::ast::lemma_insts_view_insert0(old_body, w);
                }
                body.insert(0, w);
                Ok((ps, body))
            },
            Statement::Other(_) => Ok((ps, body)),
        },
    }
}

/// The parser type for the widget-template language.
pub struct WuiParser;

impl WuiParser {
    /// Parses a whole source unit into its statement list.
    pub fn parse_source(source: &str) -> (r: Result<Vec<Statement>, ParseError>)
        ensures
            r is Ok <==> grammar::parse_source_spec(source@) is Some,
            r matches Ok(v) ==> {
                &&& stmts_view(v@) == grammar::parse_source_spec(source@)->0
                &&& crate::ast::stmts_wf(stmts_view(v@))
            },
            r matches Err(e) ==> e.offset <= source@.len(),
    {
        let n = source.unicode_len();
        match parse_stmts(source, n, 0) {
            Err(e) => Err(e),
            Ok((v, _end)) => Ok(v),
        }
    }
}

/// Parses one source unit into a template named after the unit.
///
/// Succeeds exactly on text the grammar accepts; the resulting template
/// carries the declared parameters in order and the body instances in
/// source order, and is well-formed.  On failure the error's offset lies
/// within the source and is translatable to a line and column.
pub fn parse_template(source: &str, name: &str) -> (r: Result<Widget, ParseError>)
    ensures
        r is Ok <==> grammar::parse_template_spec(source@, name@) is Some,
        r matches Ok(w) ==> {
            &&& template_view(w) == grammar::parse_template_spec(source@, name@)->0
            &&& template_wf(template_view(w))
        },
        r matches Err(e) ==> e.offset <= source@.len(),
{
    let n = source.unicode_len();
    match parse_stmts(source, n, 0) {
        Err(e) => Err(e),
        Ok((stmts, _end)) => match collect(stmts) {
            Err(e) => Err(e),
            Ok((params, body)) => Ok(Widget { name: name.to_owned(), params, body }),
        },
    }
}

} // verus!
