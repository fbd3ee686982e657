//! The abstract syntax of the widget-template language, together with its
//! mathematical model.
//!
//! Each executable type has a ghost counterpart over `Seq<char>` values, and
//! a view function mapping the one onto the other.  Contracts throughout the
//! crate are stated over the ghost types.

use vstd::prelude::*;

verus! {

// ---------------------------------------------------------------------------
// Ghost model
// ---------------------------------------------------------------------------

/// Model of an argument mapping: name/value pairs in source order.
/// Well-formed values carry each key at most once.
pub type ArgsV = Seq<(Seq<char>, Seq<char>)>;

/// Model of a declared template parameter.
pub ghost struct ParamV {
    pub name: Seq<char>,
    pub default: Option<Seq<char>>,
}

/// Model of one widget or template instantiation as written in source.
pub ghost struct InstV {
    pub widget: Seq<char>,
    pub args: ArgsV,
    pub children: Seq<InstV>,
}

/// Model of a parsed template: a named, parameterized body of instances.
pub ghost struct TemplateV {
    pub name: Seq<char>,
    pub params: Seq<ParamV>,
    pub body: Seq<InstV>,
}

/// Looks a key up in an argument mapping; the first pair with the key wins
/// (well-formed mappings hold each key once, so the choice is immaterial).
pub open spec fn arg_lookup(args: ArgsV, key: Seq<char>) -> Option<Seq<char>>
    decreases args.len(),
{
    if args.len() == 0 {
        None
    } else if args[0].0 == key {
        Some(args[0].1)
    } else {
        arg_lookup(args.subrange(1, args.len() as int), key)
    }
}

/// Whether an argument mapping carries the key.
pub open spec fn arg_has(args: ArgsV, key: Seq<char>) -> bool {
    arg_lookup(args, key) is Some
}

/// Whether an argument mapping carries each key at most once.
pub open spec fn args_wf(args: ArgsV) -> bool {
    forall|i: int, j: int|
        0 <= i < j < args.len() ==> (#[trigger] args[i]).0 != (#[trigger] args[j]).0
}

/// Whether a parameter list declares each name at most once.
pub open spec fn params_wf(params: Seq<ParamV>) -> bool {
    forall|i: int, j: int|
        0 <= i < j < params.len() ==> (#[trigger] params[i]).name != (#[trigger] params[j]).name
}

/// Whether some parameter of the list bears the name.
pub open spec fn params_has(params: Seq<ParamV>, name: Seq<char>) -> bool {
    exists|i: int| 0 <= i < params.len() && (#[trigger] params[i]).name == name
}

/// The first parameter of the name, if any.
pub open spec fn param_lookup(params: Seq<ParamV>, name: Seq<char>) -> Option<ParamV>
    decreases params.len(),
{
    if params.len() == 0 {
        None
    } else if params[0].name == name {
        Some(params[0])
    } else {
        param_lookup(params.subrange(1, params.len() as int), name)
    }
}

/// A name is declared exactly when it looks up to a parameter.
pub proof fn lemma_param_lookup(params: Seq<ParamV>, name: Seq<char>)
    ensures
        params_has(params, name) <==> param_lookup(params, name) is Some,
    decreases params.len(),
{
    if params.len() > 0 {
        let tail = params.subrange(1, params.len() as int);
        lemma_param_lookup(tail, name);
        if params[0].name == name {
            assert((params[0]).name == name);
        } else {
            if params_has(params, name) {
                let i = choose|i: int|
                    0 <= i < params.len() && (#[trigger] params[i]).name == name;
                assert(tail[i - 1] == params[i]);
            }
            if params_has(tail, name) {
                let i = choose|i: int| 0 <= i < tail.len() && (#[trigger] tail[i]).name == name;
                assert((params[i + 1]).name == name);
            }
        }
    }
}

/// Prepending a fresh name keeps a parameter list well-formed.
pub proof fn lemma_params_wf_insert(params: Seq<ParamV>, p: ParamV)
    requires
        params_wf(params),
        !params_has(params, p.name),
    ensures
        params_wf(seq![p] + params),
{
    let w = seq![p] + params;
    assert forall|i: int, j: int| 0 <= i < j < w.len() implies (#[trigger] w[i]).name != (
    #[trigger] w[j]).name by {
        if i == 0 {
            assert(w[j] == params[j - 1]);
        } else {
            assert(w[i] == params[i - 1]);
            assert(w[j] == params[j - 1]);
        }
    }
}

/// Whether an instance and all instances below it carry well-formed
/// argument mappings.
pub open spec fn inst_wf(inst: InstV) -> bool
    decreases inst,
{
    args_wf(inst.args) && insts_wf(inst.children)
}

/// Whether every instance of a sequence is well-formed.
pub open spec fn insts_wf(insts: Seq<InstV>) -> bool
    decreases insts,
{
    forall|i: int| 0 <= i < insts.len() ==> inst_wf(#[trigger] insts[i])
}

/// Whether a template declares distinct parameters and carries a
/// well-formed body.
pub open spec fn template_wf(t: TemplateV) -> bool {
    params_wf(t.params) && insts_wf(t.body)
}

/// A key is present exactly when some pair carries it.
pub proof fn lemma_arg_lookup(args: ArgsV, key: Seq<char>)
    ensures
        arg_has(args, key) <==> exists|i: int|
            0 <= i < args.len() && (#[trigger] args[i]).0 == key,
    decreases args.len(),
{
    if args.len() > 0 {
        let tail = args.subrange(1, args.len() as int);
        lemma_arg_lookup(tail, key);
        if args[0].0 == key {
            assert((args[0]).0 == key);
        } else {
            if arg_has(args, key) {
                let i = choose|i: int| 0 <= i < tail.len() && (#[trigger] tail[i]).0 == key;
                assert((args[i + 1]).0 == key);
            }
            if exists|i: int| 0 <= i < args.len() && (#[trigger] args[i]).0 == key {
                let i = choose|i: int| 0 <= i < args.len() && (#[trigger] args[i]).0 == key;
                assert(tail[i - 1] == args[i]);
            }
        }
    }
}

// ---------------------------------------------------------------------------
// Executable syntax
// ---------------------------------------------------------------------------

/// A declared template parameter: a name with an optional default value.
#[derive(Debug)]
pub struct Param {
    pub name: String,
    pub default: Option<String>,
}

/// One widget or template instantiation as written in source: a type name,
/// an argument mapping (literal text or an opaque script-block token), and
/// nested instantiations in source order.
#[derive(Debug)]
pub struct WidgetInstance {
    pub widget: String,
    pub args: Vec<(String, String)>,
    pub children: Vec<WidgetInstance>,
}

/// A parsed template: the reusable unit the registry stores.
#[derive(Debug)]
pub struct Widget {
    pub name: String,
    pub params: Vec<Param>,
    pub body: Vec<WidgetInstance>,
}

/// The statement kinds that are recognized syntactically but not expanded:
/// conditionals, iteration, change handlers, effects and breakpoint
/// declarations.
#[derive(Debug, Clone, Copy, PartialEq, Eq, Structural)]
pub enum OtherKind {
    If,
    For,
    OnChange,
    Effect,
    Breakpoints,
}

/// A recognized-but-unexpanded statement: its kind, the raw header text
/// between parentheses (empty when absent), and the parsed contents of its
/// block.
#[derive(Debug)]
pub struct OtherStmt {
    pub kind: OtherKind,
    pub header: String,
    pub args: Vec<(String, String)>,
    pub children: Vec<WidgetInstance>,
}

/// One top-level statement of a source unit.
#[derive(Debug)]
pub enum Statement {
    Param(Param),
    Widget(WidgetInstance),
    Other(OtherStmt),
}

// ---------------------------------------------------------------------------
// Views
// ---------------------------------------------------------------------------

/// Model of a recognized-but-unexpanded statement.
pub ghost struct OtherV {
    pub kind: OtherKind,
    pub header: Seq<char>,
    pub args: ArgsV,
    pub children: Seq<InstV>,
}

/// Model of a top-level statement.
pub ghost enum StmtV {
    Param(ParamV),
    Widget(InstV),
    Other(OtherV),
}

pub open spec fn param_view(p: Param) -> ParamV {
    ParamV {
        name: p.name@,
        default: match p.default {
            Some(d) => Some(d@),
            None => None,
        },
    }
}

pub open spec fn params_view(ps: Seq<Param>) -> Seq<ParamV> {
    Seq::new(ps.len(), |i: int| param_view(ps[i]))
}

pub open spec fn args_view(args: Seq<(String, String)>) -> ArgsV {
    Seq::new(args.len(), |i: int| (args[i].0@, args[i].1@))
}

pub open spec fn inst_view(inst: WidgetInstance) -> InstV
    decreases inst,
{
    InstV {
        widget: inst.widget@,
        args: args_view(inst.args@),
        children: insts_view(inst.children@),
    }
}

pub open spec fn insts_view(insts: Seq<WidgetInstance>) -> Seq<InstV>
    decreases insts,
{
    if insts.len() == 0 {
        Seq::empty()
    } else {
        insts_view(insts.drop_last()).push(inst_view(insts.last()))
    }
}

pub open spec fn template_view(w: Widget) -> TemplateV {
    TemplateV { name: w.name@, params: params_view(w.params@), body: insts_view(w.body@) }
}

pub open spec fn other_view(o: OtherStmt) -> OtherV {
    OtherV {
        kind: o.kind,
        header: o.header@,
        args: args_view(o.args@),
        children: insts_view(o.children@),
    }
}

pub open spec fn stmt_view(s: Statement) -> StmtV {
    match s {
        Statement::Param(p) => StmtV::Param(param_view(p)),
        Statement::Widget(w) => StmtV::Widget(inst_view(w)),
        Statement::Other(o) => StmtV::Other(other_view(o)),
    }
}

pub open spec fn stmts_view(ss: Seq<Statement>) -> Seq<StmtV> {
    Seq::new(ss.len(), |i: int| stmt_view(ss[i]))
}

/// Whether a recognized-but-unexpanded statement carries well-formed
/// contents.
pub open spec fn other_wf(o: OtherV) -> bool {
    args_wf(o.args) && insts_wf(o.children)
}

pub open spec fn stmt_wf(st: StmtV) -> bool {
    match st {
        StmtV::Param(_) => true,
        StmtV::Widget(w) => inst_wf(w),
        StmtV::Other(o) => other_wf(o),
    }
}

pub open spec fn stmts_wf(ss: Seq<StmtV>) -> bool {
    forall|i: int| 0 <= i < ss.len() ==> stmt_wf(#[trigger] ss[i])
}

/// The view of a sequence of instances is its element-wise view.
pub proof fn lemma_insts_view(insts: Seq<WidgetInstance>)
    ensures
        insts_view(insts).len() == insts.len(),
        forall|i: int| 0 <= i < insts.len() ==> insts_view(insts)[i] == inst_view(#[trigger] insts[i]),
    decreases insts,
{
    if insts.len() > 0 {
        lemma_insts_view(insts.drop_last());
        assert forall|i: int| 0 <= i < insts.len() implies insts_view(insts)[i] == inst_view(
            #[trigger] insts[i],
        ) by {
            if i < insts.len() - 1 {
                assert(insts.drop_last()[i] == insts[i]);
            } else {
                assert(insts[i] == insts.last());
            }
        }
    }
}

/// Inserting a pair at the front of an argument vector prepends its view.
pub proof fn lemma_args_view_insert0(v: Seq<(String, String)>, p: (String, String))
    ensures
        args_view(v.insert(0, p)) == seq![(p.0@, p.1@)] + args_view(v),
{
    let w = v.insert(0, p);
    let r = seq![(p.0@, p.1@)] + args_view(v);
    assert forall|i: int| 0 <= i < w.len() implies args_view(w)[i] == r[i] by {
        if i == 0 {
            assert(w[0] == p);
        } else {
            assert(w[i] == v[i - 1]);
            assert(r[i] == args_view(v)[i - 1]);
        }
    }
    assert(args_view(w) =~= r);
}

/// Inserting a statement at the front of a vector prepends its view.
pub proof fn lemma_stmts_view_insert0(v: Seq<Statement>, st: Statement)
    ensures
        stmts_view(v.insert(0, st)) == seq![stmt_view(st)] + stmts_view(v),
{
    let w = v.insert(0, st);
    let r = seq![stmt_view(st)] + stmts_view(v);
    assert forall|i: int| 0 <= i < w.len() implies stmts_view(w)[i] == r[i] by {
        if i == 0 {
            assert(w[0] == st);
        } else {
            assert(w[i] == v[i - 1]);
            assert(r[i] == stmts_view(v)[i - 1]);
        }
    }
    assert(stmts_view(w) =~= r);
}

/// Inserting a parameter at the front of a vector prepends its view.
pub proof fn lemma_params_view_insert0(v: Seq<Param>, p: Param)
    ensures
        params_view(v.insert(0, p)) == seq![param_view(p)] + params_view(v),
{
    let w = v.insert(0, p);
    let r = seq![param_view(p)] + params_view(v);
    assert forall|i: int| 0 <= i < w.len() implies params_view(w)[i] == r[i] by {
        if i == 0 {
            assert(w[0] == p);
        } else {
            assert(w[i] == v[i - 1]);
            assert(r[i] == params_view(v)[i - 1]);
        }
    }
    assert(params_view(w) =~= r);
}

/// Prepending a fresh key keeps an argument mapping well-formed.
pub proof fn lemma_args_wf_insert(args: ArgsV, key: Seq<char>, val: Seq<char>)
    requires
        args_wf(args),
        !arg_has(args, key),
    ensures
        args_wf(seq![(key, val)] + args),
{
    lemma_arg_lookup(args, key);
    let w = seq![(key, val)] + args;
    assert forall|i: int, j: int| 0 <= i < j < w.len() implies (#[trigger] w[i]).0 != (
    #[trigger] w[j]).0 by {
        if i == 0 {
            assert(w[j] == args[j - 1]);
        } else {
            assert(w[i] == args[i - 1]);
            assert(w[j] == args[j - 1]);
        }
    }
}

/// Prepending a well-formed instance keeps a sequence well-formed.
pub proof fn lemma_insts_wf_cons(c: InstV, rest: Seq<InstV>)
    requires
        inst_wf(c),
        insts_wf(rest),
    ensures
        insts_wf(seq![c] + rest),
{
    let w = seq![c] + rest;
    assert forall|i: int| 0 <= i < w.len() implies inst_wf(#[trigger] w[i]) by {
        if i > 0 {
            assert(w[i] == rest[i - 1]);
        }
    }
}

/// Inserting an instance at the front of a vector prepends its view.
pub proof fn lemma_insts_view_insert0(v: Seq<WidgetInstance>, c: WidgetInstance)
    ensures
        insts_view(v.insert(0, c)) == seq![inst_view(c)] + insts_view(v),
{
    lemma_insts_view(v);
    lemma_insts_view(v.insert(0, c));
    let w = v.insert(0, c);
    let r = seq![inst_view(c)] + insts_view(v);
    assert forall|i: int| 0 <= i < w.len() implies insts_view(w)[i] == r[i] by {
        if i == 0 {
            assert(w[0] == c);
        } else {
            assert(w[i] == v[i - 1]);
            assert(r[i] == insts_view(v)[i - 1]);
        }
    }
    assert(insts_view(w) =~= r);
}

} // verus!
