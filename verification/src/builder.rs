//! The tree expander: recursive substitution of template references by
//! their bodies, producing a renderer-ready widget tree.
//!
//! Expansion is a pure recursive builder over an immutable registry
//! snapshot.  For an instance whose type name is registered, the template
//! body is instantiated (transitively), declared-parameter arguments are
//! merged over it, instance children are appended after the body's own,
//! and an explicit `id` argument overrides the template's default id.  An
//! unregistered type name is a primitive leaf and passes through
//! unchanged.  A template that is asked to expand while it is already
//! being expanded on the active path is a cycle, reported as an error
//! rather than recursed into.

use vstd::prelude::*;
use vstd::seq_lib::seq_to_set_is_finite;

use crate::ast::ArgsV;
use crate::ast::InstV;
use crate::ast::Param;
use crate::ast::ParamV;
use crate::ast::TemplateV;
use crate::ast::WidgetInstance;
use crate::ast::arg_has;
use crate::ast::arg_lookup;
use crate::ast::args_view;
use crate::ast::args_wf;
use crate::ast::inst_view;
use crate::ast::inst_wf;
use crate::ast::insts_view;
use crate::ast::insts_wf;
use crate::ast::param_view;
use crate::ast::params_has;
use crate::ast::params_view;
use crate::ast::params_wf;
use crate::ast::template_wf;
use crate::parser::str_eq;
use crate::registry::RegV;
use crate::registry::Registry;
use crate::registry::reg_has;
use crate::registry::reg_lookup;
use crate::registry::reg_names;

verus! {

// ---------------------------------------------------------------------------
// Ghost model
// ---------------------------------------------------------------------------

/// Model of a fully-resolved widget node.
pub ghost struct NodeV {
    pub widget_type: Seq<char>,
    pub id: Option<Seq<char>>,
    pub args: ArgsV,
    pub children: Seq<NodeV>,
}

pub open spec fn node_wf(n: NodeV) -> bool
    decreases n,
{
    args_wf(n.args) && nodes_wf(n.children)
}

pub open spec fn nodes_wf(ns: Seq<NodeV>) -> bool
    decreases ns,
{
    forall|i: int| 0 <= i < ns.len() ==> node_wf(#[trigger] ns[i])
}

/// The resolved arguments of a template instantiation: the declared
/// parameters in order, each bound to the instance's value when supplied,
/// else to its declared default, else omitted.  Arguments not declared as
/// parameters are dropped.
pub open spec fn merged_args(params: Seq<ParamV>, args: ArgsV) -> ArgsV
    decreases params.len(),
{
    if params.len() == 0 {
        Seq::empty()
    } else {
        let p = params[0];
        let rest = merged_args(params.subrange(1, params.len() as int), args);
        match arg_lookup(args, p.name) {
            Some(v) => seq![(p.name, v)] + rest,
            None => match p.default {
                Some(d) => seq![(p.name, d)] + rest,
                None => rest,
            },
        }
    }
}

/// How many registered template names are not yet on the expansion path.
/// Every step into a template body strictly shrinks this count, which
/// bounds the expansion depth.
pub open spec fn avail(reg: RegV, path: Seq<Seq<char>>) -> nat {
    reg_names(reg).to_set().difference(path.to_set()).len()
}

/// Resolves one instance against the registry.  `path` holds the names of
/// the templates being expanded on the active resolution path, outermost
/// first; meeting one of them again is a cycle, and the error carries the
/// path with the repeated name at its end.
pub open spec fn resolve_inst(inst: InstV, reg: RegV, path: Seq<Seq<char>>) -> Result<
    NodeV,
    Seq<Seq<char>>,
>
    decreases avail(reg, path), inst,
{
    match reg_lookup(reg, inst.widget) {
        Some(t) => {
            if path.contains(inst.widget) {
                Err(path.push(inst.widget))
            } else {
                proof {
                    lemma_avail_decreases(reg, path, inst.widget);
                }
                match resolve_seq(t.body, reg, path.push(inst.widget)) {
                    Err(c) => Err(c),
                    Ok(base) => match resolve_seq(inst.children, reg, path) {
                        Err(c) => Err(c),
                        Ok(extra) => Ok(
                            NodeV {
                                widget_type: t.name,
                                id: match arg_lookup(inst.args, "id"@) {
                                    Some(v) => Some(v),
                                    None => Some(t.name),
                                },
                                args: merged_args(t.params, inst.args),
                                children: base + extra,
                            },
                        ),
                    },
                }
            }
        },
        None => match resolve_seq(inst.children, reg, path) {
            Err(c) => Err(c),
            Ok(ch) => Ok(
                NodeV {
                    widget_type: inst.widget,
                    id: arg_lookup(inst.args, "id"@),
                    args: inst.args,
                    children: ch,
                },
            ),
        },
    }
}

/// Resolves a sequence of instances in order, stopping at the first
/// cycle.
pub open spec fn resolve_seq(insts: Seq<InstV>, reg: RegV, path: Seq<Seq<char>>) -> Result<
    Seq<NodeV>,
    Seq<Seq<char>>,
>
    decreases avail(reg, path), insts,
{
    if insts.len() == 0 {
        Ok(Seq::empty())
    } else {
        match resolve_inst(insts[0], reg, path) {
            Err(c) => Err(c),
            Ok(nd) => match resolve_seq(insts.subrange(1, insts.len() as int), reg, path) {
                Err(c) => Err(c),
                Ok(rest) => Ok(seq![nd] + rest),
            },
        }
    }
}

/// The synthetic instance that expanding a root reference resolves: the
/// bare name, with no arguments and no children.
pub open spec fn root_inst(name: Seq<char>) -> InstV {
    InstV { widget: name, args: Seq::empty(), children: Seq::empty() }
}

/// What expanding a root reference yields: nothing when the name is not
/// registered, else the resolution of its synthetic instance.
pub open spec fn expand_spec(reg: RegV, root: Seq<char>) -> Option<Result<NodeV, Seq<Seq<char>>>> {
    if reg_has(reg, root) {
        Some(resolve_inst(root_inst(root), reg, Seq::empty()))
    } else {
        None
    }
}

/// Entering an unvisited registered template strictly shrinks the count
/// of registered names off the path.
pub proof fn lemma_avail_decreases(reg: RegV, path: Seq<Seq<char>>, name: Seq<char>)
    requires
        reg_has(reg, name),
        !path.contains(name),
    ensures
        avail(reg, path.push(name)) < avail(reg, path),
{
    broadcast use seq_to_set_is_finite;

    let names = reg_names(reg).to_set();
    let diff = names.difference(path.to_set());
    crate::registry::lemma_reg_lookup(reg, name);
    let i = choose|i: int| 0 <= i < reg.len() && (#[trigger] reg[i]).0 == name;
    assert(reg_names(reg)[i] == name);
    assert(reg_names(reg).contains(name));
    assert(names.contains(name));
    assert(!path.to_set().contains(name));
    assert(diff.contains(name));
    path.lemma_push_to_set_commute(name);
    assert(names.difference(path.push(name).to_set()) =~= diff.remove(name));
    assert(diff.finite());
    assert(diff.remove(name).len() == diff.len() - 1);
}

// ---------------------------------------------------------------------------
// Properties of the argument merge
// ---------------------------------------------------------------------------

/// Every key of the merged arguments is a declared parameter name.
pub proof fn lemma_merged_args_keys(params: Seq<ParamV>, args: ArgsV, name: Seq<char>)
    requires
        !params_has(params, name),
    ensures
        !arg_has(merged_args(params, args), name),
    decreases params.len(),
{
    let m = merged_args(params, args);
    if params.len() == 0 {
        assert(arg_lookup(m, name) is None);
    } else {
        let p = params[0];
        let tailp = params.subrange(1, params.len() as int);
        assert(!params_has(tailp, name)) by {
            if params_has(tailp, name) {
                let i = choose|i: int| 0 <= i < tailp.len() && (#[trigger] tailp[i]).name == name;
                assert((params[i + 1]).name == name);
            }
        }
        lemma_merged_args_keys(tailp, args, name);
        assert(p.name != name) by {
            assert((params[0]).name == p.name);
        }
        let rest = merged_args(tailp, args);
        match arg_lookup(args, p.name) {
            Some(v) => {
                let c = seq![(p.name, v)] + rest;
                assert(c[0].0 == p.name);
                assert(c.subrange(1, c.len() as int) =~= rest);
            },
            None => match p.default {
                Some(d) => {
                    let c = seq![(p.name, d)] + rest;
                    assert(c[0].0 == p.name);
                    assert(c.subrange(1, c.len() as int) =~= rest);
                },
                None => {},
            },
        }
    }
}

/// The merged arguments of a well-formed parameter list are well-formed.
pub proof fn lemma_merged_args_wf(params: Seq<ParamV>, args: ArgsV)
    requires
        params_wf(params),
    ensures
        args_wf(merged_args(params, args)),
    decreases params.len(),
{
    if params.len() == 0 {
        assert(args_wf(merged_args(params, args)));
    } else {
        let p = params[0];
        let tailp = params.subrange(1, params.len() as int);
        assert forall|i: int, j: int| 0 <= i < j < tailp.len() implies (
        #[trigger] tailp[i]).name != (#[trigger] tailp[j]).name by {
            assert(tailp[i] == params[i + 1]);
            assert(tailp[j] == params[j + 1]);
        }
        lemma_merged_args_wf(tailp, args);
        assert(!params_has(tailp, p.name)) by {
            if params_has(tailp, p.name) {
                let i = choose|i: int|
                    0 <= i < tailp.len() && (#[trigger] tailp[i]).name == p.name;
                assert((params[i + 1]).name == p.name);
                assert((params[0]).name == p.name);
            }
        }
        lemma_merged_args_keys(tailp, args, p.name);
        let rest = merged_args(tailp, args);
        match arg_lookup(args, p.name) {
            Some(v) => {
                crate::ast::lemma_args_wf_insert(rest, p.name, v);
            },
            None => match p.default {
                Some(d) => {
                    crate::ast::lemma_args_wf_insert(rest, p.name, d);
                },
                None => {},
            },
        }
    }
}

/// What a merged argument looks up to: for a declared parameter, the
/// instance's value when supplied, else the declared default; for an
/// undeclared name, nothing.
pub proof fn lemma_merged_args_lookup(params: Seq<ParamV>, args: ArgsV, name: Seq<char>)
    requires
        params_wf(params),
    ensures
        arg_lookup(merged_args(params, args), name) == (match crate::ast::param_lookup(
            params,
            name,
        ) {
            Some(p) => match arg_lookup(args, name) {
                Some(v) => Some(v),
                None => p.default,
            },
            None => None,
        }),
    decreases params.len(),
{
    let m = merged_args(params, args);
    if params.len() == 0 {
        assert(arg_lookup(m, name) is None);
    } else {
        let p = params[0];
        let tailp = params.subrange(1, params.len() as int);
        assert forall|i: int, j: int| 0 <= i < j < tailp.len() implies (
        #[trigger] tailp[i]).name != (#[trigger] tailp[j]).name by {
            assert(tailp[i] == params[i + 1]);
            assert(tailp[j] == params[j + 1]);
        }
        lemma_merged_args_lookup(tailp, args, name);
        let rest = merged_args(tailp, args);
        if p.name == name {
            assert(!params_has(tailp, name)) by {
                if params_has(tailp, name) {
                    let i = choose|i: int|
                        0 <= i < tailp.len() && (#[trigger] tailp[i]).name == name;
                    assert((params[i + 1]).name == name);
                    assert((params[0]).name == name);
                }
            }
            crate::ast::lemma_param_lookup(tailp, name);
            lemma_merged_args_keys(tailp, args, name);
            match arg_lookup(args, p.name) {
                Some(v) => {
                    let c = seq![(p.name, v)] + rest;
                    assert(c[0] == (p.name, v));
                },
                None => match p.default {
                    Some(d) => {
                        let c = seq![(p.name, d)] + rest;
                        assert(c[0] == (p.name, d));
                    },
                    None => {},
                },
            }
        } else {
            match arg_lookup(args, p.name) {
                Some(v) => {
                    let c = seq![(p.name, v)] + rest;
                    assert(c[0].0 == p.name);
                    assert(c.subrange(1, c.len() as int) =~= rest);
                },
                None => match p.default {
                    Some(d) => {
                        let c = seq![(p.name, d)] + rest;
                        assert(c[0].0 == p.name);
                        assert(c.subrange(1, c.len() as int) =~= rest);
                    },
                    None => {},
                },
            }
        }
    }
}

// ---------------------------------------------------------------------------
// Laws of expansion
// ---------------------------------------------------------------------------

/// Argument filtering: in the node a template instantiation resolves to,
/// a declared parameter the instance supplies carries the instance's
/// value, and a key that is not a declared parameter does not appear at
/// all.
pub proof fn lemma_argument_filtering(
    inst: InstV,
    reg: RegV,
    path: Seq<Seq<char>>,
    t: TemplateV,
    node: NodeV,
    key: Seq<char>,
)
    requires
        reg_lookup(reg, inst.widget) == Some(t),
        template_wf(t),
        resolve_inst(inst, reg, path) == Ok::<NodeV, Seq<Seq<char>>>(node),
    ensures
        params_has(t.params, key) && arg_lookup(inst.args, key) is Some ==> arg_lookup(
            node.args,
            key,
        ) == arg_lookup(inst.args, key),
        !params_has(t.params, key) ==> !arg_has(node.args, key),
{
    lemma_merged_args_lookup(t.params, inst.args, key);
    crate::ast::lemma_param_lookup(t.params, key);
}

/// Child ordering: the children of the node a template instantiation
/// resolves to are the template's own resolved body followed by the
/// instance's resolved children, in that order.
pub proof fn lemma_child_ordering(
    inst: InstV,
    reg: RegV,
    path: Seq<Seq<char>>,
    t: TemplateV,
    node: NodeV,
    base: Seq<NodeV>,
    extra: Seq<NodeV>,
)
    requires
        reg_lookup(reg, inst.widget) == Some(t),
        resolve_inst(inst, reg, path) == Ok::<NodeV, Seq<Seq<char>>>(node),
        resolve_seq(t.body, reg, path.push(inst.widget)) == Ok::<Seq<NodeV>, Seq<Seq<char>>>(base),
        resolve_seq(inst.children, reg, path) == Ok::<Seq<NodeV>, Seq<Seq<char>>>(extra),
    ensures
        node.children == base + extra,
{
}

/// Id precedence: the node a template instantiation resolves to bears the
/// instance's explicit `id` argument when one is given, and the template
/// name otherwise.
pub proof fn lemma_id_precedence(
    inst: InstV,
    reg: RegV,
    path: Seq<Seq<char>>,
    t: TemplateV,
    node: NodeV,
)
    requires
        reg_lookup(reg, inst.widget) == Some(t),
        resolve_inst(inst, reg, path) == Ok::<NodeV, Seq<Seq<char>>>(node),
    ensures
        arg_lookup(inst.args, "id"@) matches Some(v) ==> node.id == Some(v),
        arg_lookup(inst.args, "id"@) is None ==> node.id == Some(t.name),
{
}

/// A sequence that resolves without error resolves each of its instances
/// without error.
proof fn lemma_resolve_seq_ok_elements(
    insts: Seq<InstV>,
    reg: RegV,
    path: Seq<Seq<char>>,
    k: int,
)
    requires
        resolve_seq(insts, reg, path) is Ok,
        0 <= k < insts.len(),
    ensures
        resolve_inst(insts[k], reg, path) is Ok,
    decreases insts.len(),
{
    if k > 0 {
        let tail = insts.subrange(1, insts.len() as int);
        lemma_resolve_seq_ok_elements(tail, reg, path, k - 1);
        assert(tail[k - 1] == insts[k]);
    }
}

/// Cycle detection: a registered template whose body instantiates the
/// template itself cannot expand; the run reports a cycle instead of
/// recursing unboundedly.
pub proof fn lemma_cycle_detected(reg: RegV, name: Seq<char>, t: TemplateV, i: int)
    requires
        reg_lookup(reg, name) == Some(t),
        0 <= i < t.body.len(),
        t.body[i].widget == name,
    ensures
        expand_spec(reg, name) is Some,
        expand_spec(reg, name)->0 is Err,
{
    let root = root_inst(name);
    let empty = Seq::<Seq<char>>::empty();
    assert(!empty.contains(name));
    let onpath = empty.push(name);
    assert(onpath[0] == name);
    assert(onpath.contains(name));
    if resolve_seq(t.body, reg, onpath) is Ok {
        lemma_resolve_seq_ok_elements(t.body, reg, onpath, i);
        assert(resolve_inst(t.body[i], reg, onpath) is Err);
    }
}

// ---------------------------------------------------------------------------
// Executable trees
// ---------------------------------------------------------------------------

/// A fully-expanded widget node, ready for rendering.
#[derive(Debug)]
pub struct WidgetDef {
    /// The widget kind the renderer maps to a draw operation (or a user
    /// template name left as a leaf).
    pub widget_type: String,
    /// Explicit id, when one was given or inherited from a template name.
    pub id: Option<String>,
    /// Resolved arguments: literal text or opaque script-block tokens.
    pub args: Vec<(String, String)>,
    /// Child nodes in their resolved order.
    pub children: Vec<WidgetDef>,
}

impl WidgetDef {
    /// The display label of a node: its id when it carries one, else its
    /// widget type.
    pub fn label(&self) -> (r: &str)
        ensures
            match self.id {
                Some(id) => r@ == id@,
                None => r@ == self.widget_type@,
            },
    {
        match &self.id {
            Some(id) => id.as_str(),
            None => self.widget_type.as_str(),
        }
    }
}

/// A cyclic template reference: the expansion path, outermost template
/// first, ending with the name that was already being expanded.
#[derive(Debug)]
pub struct CycleError {
    pub cycle: Vec<String>,
}

pub open spec fn node_view(d: WidgetDef) -> NodeV
    decreases d,
{
    NodeV {
        widget_type: d.widget_type@,
        id: match d.id {
            Some(s) => Some(s@),
            None => None,
        },
        args: args_view(d.args@),
        children: nodes_view(d.children@),
    }
}

pub open spec fn nodes_view(ds: Seq<WidgetDef>) -> Seq<NodeV>
    decreases ds,
{
    if ds.len() == 0 {
        Seq::empty()
    } else {
        nodes_view(ds.drop_last()).push(node_view(ds.last()))
    }
}

/// The view of a sequence of nodes is its element-wise view.
pub proof fn lemma_nodes_view(ds: Seq<WidgetDef>)
    ensures
        nodes_view(ds).len() == ds.len(),
        forall|i: int| 0 <= i < ds.len() ==> nodes_view(ds)[i] == node_view(#[trigger] ds[i]),
    decreases ds,
{
    if ds.len() > 0 {
        lemma_nodes_view(ds.drop_last());
        assert forall|i: int| 0 <= i < ds.len() implies nodes_view(ds)[i] == node_view(
            #[trigger] ds[i],
        ) by {
            if i < ds.len() - 1 {
                assert(ds.drop_last()[i] == ds[i]);
            } else {
                assert(ds[i] == ds.last());
            }
        }
    }
}

/// Inserting a node at the front of a vector prepends its view.
pub proof fn lemma_nodes_view_insert0(v: Seq<WidgetDef>, d: WidgetDef)
    ensures
        nodes_view(v.insert(0, d)) == seq![node_view(d)] + nodes_view(v),
{
    lemma_nodes_view(v);
    lemma_nodes_view(v.insert(0, d));
    let w = v.insert(0, d);
    let r = seq![node_view(d)] + nodes_view(v);
    assert forall|i: int| 0 <= i < w.len() implies nodes_view(w)[i] == r[i] by {
        if i == 0 {
            assert(w[0] == d);
        } else {
            assert(w[i] == v[i - 1]);
            assert(r[i] == nodes_view(v)[i - 1]);
        }
    }
    assert(nodes_view(w) =~= r);
}

/// The view of a concatenation is the concatenation of the views.
pub proof fn lemma_nodes_view_concat(a: Seq<WidgetDef>, b: Seq<WidgetDef>)
    ensures
        nodes_view(a + b) == nodes_view(a) + nodes_view(b),
{
    lemma_nodes_view(a);
    lemma_nodes_view(b);
    lemma_nodes_view(a + b);
    let r = nodes_view(a) + nodes_view(b);
    assert forall|i: int| 0 <= i < (a + b).len() implies nodes_view(a + b)[i] == r[i] by {
        if i < a.len() {
            assert((a + b)[i] == a[i]);
        } else {
            assert((a + b)[i] == b[i - a.len()]);
            assert(r[i] == nodes_view(b)[i - a.len()]);
        }
    }
    assert(nodes_view(a + b) =~= r);
}

// ---------------------------------------------------------------------------
// Executable helpers
// ---------------------------------------------------------------------------

/// Copies a vector of strings.
fn clone_strings(v: &Vec<String>) -> (r: Vec<String>)
    ensures
        r.deep_view() == v.deep_view(),
{
    let mut r: Vec<String> = Vec::new();
    let mut i: usize = 0;
    while i < v.len()
        invariant
            i <= v@.len(),
            r@.len() == i,
            forall|j: int| 0 <= j < i ==> r@[j]@ == v@[j]@,
        decreases v@.len() - i,
    {
        r.push(v[i].clone());
        i += 1;
    }
    proof {
        assert(r.deep_view() =~= v.deep_view());
    }
    r
}

/// Whether the path holds the name.
fn contains_str(path: &Vec<String>, s: &str) -> (b: bool)
    ensures
        b == path.deep_view().contains(s@),
{
    let mut i: usize = 0;
    while i < path.len()
        invariant
            i <= path@.len(),
            forall|j: int| 0 <= j < i ==> path@[j]@ != s@,
        decreases path@.len() - i,
    {
        if str_eq(path[i].as_str(), s) {
            proof {
                assert(path.deep_view()[i as int] == s@);
            }
            return true;
        }
        i += 1;
    }
    proof {
        if path.deep_view().contains(s@) {
            let j = choose|j: int|
                0 <= j < path.deep_view().len() && path.deep_view()[j] == s@;
            assert(path@[j]@ == s@);
        }
    }
    false
}

/// Looks an argument up by key, yielding a copy of its value.
fn arg_get(args: &Vec<(String, String)>, key: &str) -> (r: Option<String>)
    ensures
        match r {
            Some(v) => arg_lookup(args_view(args@), key@) == Some(v@),
            None => arg_lookup(args_view(args@), key@) is None,
        },
{
    let ghost av = args_view(args@);
    proof {
        assert(av.subrange(0, av.len() as int) =~= av);
    }
    let mut i: usize = 0;
    while i < args.len()
        invariant
            i <= args@.len(),
            av == args_view(args@),
            arg_lookup(av, key@) == arg_lookup(av.subrange(i as int, av.len() as int), key@),
        decreases args@.len() - i,
    {
        let ghost pre = av.subrange(i as int, av.len() as int);
        if str_eq(args[i].0.as_str(), key) {
            proof {
                assert(pre[0] == av[i as int]);
            }
            return Some(args[i].1.clone());
        }
        i += 1;
        proof {
            assert(pre[0] == av[i - 1]);
            assert(pre.subrange(1, pre.len() as int) =~= av.subrange(
                i as int,
                av.len() as int,
            ));
        }
    }
    proof {
        assert(av.subrange(i as int, av.len() as int).len() == 0);
        assert(arg_lookup(av.subrange(i as int, av.len() as int), key@) is None);
    }
    None
}

/// Copies an argument vector.
fn clone_args(args: &Vec<(String, String)>) -> (r: Vec<(String, String)>)
    ensures
        args_view(r@) == args_view(args@),
{
    let mut r: Vec<(String, String)> = Vec::new();
    let mut i: usize = 0;
    while i < args.len()
        invariant
            i <= args@.len(),
            r@.len() == i,
            forall|j: int| 0 <= j < i ==> r@[j].0@ == args@[j].0@ && r@[j].1@ == args@[j].1@,
        decreases args@.len() - i,
    {
        r.push((args[i].0.clone(), args[i].1.clone()));
        i += 1;
    }
    proof {
        assert(args_view(r@) =~= args_view(args@));
    }
    r
}

/// Builds the resolved arguments for the parameters from `k` on.
fn merge_from(params: &Vec<Param>, args: &Vec<(String, String)>, k: usize) -> (r: Vec<
    (String, String),
>)
    requires
        k <= params@.len(),
    ensures
        args_view(r@) == merged_args(
            params_view(params@).skip(k as int),
            args_view(args@),
        ),
    decreases params@.len() - k,
{
    let ghost pv = params_view(params@).skip(k as int);
    if k == params.len() {
        let r: Vec<(String, String)> = Vec::new();
        proof {
            assert(pv.len() == 0);
            assert(args_view(r@) =~= Seq::<(Seq<char>, Seq<char>)>::empty());
        }
        r
    } else {
        let mut rest = merge_from(params, args, k + 1);
        proof {
            assert(pv[0] == param_view(params@[k as int]));
            assert(pv.subrange(1, pv.len() as int) =~= params_view(params@).skip(k as int + 1));
        }
        let p = &params[k];
        let ghost old_rest = rest@;
        match arg_get(args, p.name.as_str()) {
            Some(v) => {
                rest.insert(0, (p.name.clone(), v));
                proof {
                    crate::ast::lemma_args_view_insert0(old_rest, rest@[0]);
                }
            },
            None => {
                match &p.default {
                    Some(d) => {
                        rest.insert(0, (p.name.clone(), d.clone()));
                        proof {
                            crate::ast::lemma_args_view_insert0(old_rest, rest@[0]);
                        }
                    },
                    None => {},
                }
            },
        }
        rest
    }
}

// ---------------------------------------------------------------------------
// Resolution
// ---------------------------------------------------------------------------

/// Resolves one instance: the executable counterpart of
/// [`resolve_inst`], proved to agree with it.
fn resolve_inst_x(inst: &WidgetInstance, reg: &Registry, path: &Vec<String>) -> (r: Result<
    WidgetDef,
    CycleError,
>)
    requires
        reg.inv(),
        inst_wf(inst_view(*inst)),
    ensures
        r matches Ok(d) ==> resolve_inst(inst_view(*inst), reg@, path.deep_view()) == Ok::<
            NodeV,
            Seq<Seq<char>>,
        >(node_view(d)) && node_wf(node_view(d)),
        r matches Err(c) ==> resolve_inst(inst_view(*inst), reg@, path.deep_view()) == Err::<
            NodeV,
            Seq<Seq<char>>,
        >(c.cycle.deep_view()),
    decreases avail(reg@, path.deep_view()), *inst, 0int,
{
    let ghost iv = inst_view(*inst);
    let ghost pathv = path.deep_view();
    match reg.get(inst.widget.as_str()) {
        Some(t) => {
            if contains_str(path, inst.widget.as_str()) {
                let mut cycle = clone_strings(path);
                cycle.push(inst.widget.clone());
                proof {
                    assert(cycle.deep_view() =~= pathv.push(iv.widget));
                }
                Err(CycleError { cycle })
            } else {
                proof {
                    crate::registry::lemma_reg_lookup_wf(reg@, iv.widget);
                    lemma_avail_decreases(reg@, pathv, iv.widget);
                    assert(insts_view(t.body@).skip(0) =~= insts_view(t.body@));
                    assert(insts_view(inst.children@).skip(0) =~= insts_view(inst.children@));
                }
                let mut path2 = clone_strings(path);
                path2.push(inst.widget.clone());
                proof {
                    assert(path2.deep_view() =~= pathv.push(iv.widget));
                }
                match resolve_from_x(&t.body, 0, reg, &path2) {
                    Err(c) => Err(c),
                    Ok(base) => match resolve_from_x(&inst.children, 0, reg, path) {
                        Err(c) => Err(c),
                        Ok(extra) => {
                            let args = merge_from(&t.params, &inst.args, 0);
                            proof {
                                assert(params_view(t.params@).skip(0) =~= params_view(
                                    t.params@,
                                ));
                                lemma_merged_args_wf(params_view(t.params@), iv.args);
                            }
                            let id = match arg_get(&inst.args, "id") {
                                Some(v) => Some(v),
                                None => Some(t.name.clone()),
                            };
                            let mut children = base;
                            let mut extra = extra;
                            let ghost base_v = children@;
                            let ghost extra_v = extra@;
                            children.append(&mut extra);
                            proof {
                                lemma_nodes_view_concat(base_v, extra_v);
                                lemma_nodes_view(base_v);
                                lemma_nodes_view(extra_v);
                                lemma_nodes_view(children@);
                            }
                            Ok(
                                WidgetDef {
                                    widget_type: t.name.clone(),
                                    id,
                                    args,
                                    children,
                                },
                            )
                        },
                    },
                }
            }
        },
        None => {
            proof {
                assert(insts_view(inst.children@).skip(0) =~= insts_view(inst.children@));
            }
            match resolve_from_x(&inst.children, 0, reg, path) {
                Err(c) => Err(c),
                Ok(ch) => {
                    let args = clone_args(&inst.args);
                    let id = arg_get(&inst.args, "id");
                    Ok(WidgetDef { widget_type: inst.widget.clone(), id, args, children: ch })
                },
            }
        },
    }
}

/// Resolves the instances from `j` on, in order: the executable
/// counterpart of [`resolve_seq`].
fn resolve_from_x(insts: &Vec<WidgetInstance>, j: usize, reg: &Registry, path: &Vec<String>) -> (r:
    Result<Vec<WidgetDef>, CycleError>)
    requires
        reg.inv(),
        insts_wf(insts_view(insts@)),
        j <= insts@.len(),
    ensures
        r matches Ok(ds) ==> resolve_seq(
            insts_view(insts@).skip(j as int),
            reg@,
            path.deep_view(),
        ) == Ok::<Seq<NodeV>, Seq<Seq<char>>>(nodes_view(ds@)) && nodes_wf(nodes_view(ds@)),
        r matches Err(c) ==> resolve_seq(
            insts_view(insts@).skip(j as int),
            reg@,
            path.deep_view(),
        ) == Err::<Seq<NodeV>, Seq<Seq<char>>>(c.cycle.deep_view()),
    decreases avail(reg@, path.deep_view()), *insts, insts@.len() - j + 1,
{
    let ghost sv = insts_view(insts@);
    proof {
        crate::ast::lemma_insts_view(insts@);
    }
    if j == insts.len() {
        let r: Vec<WidgetDef> = Vec::new();
        proof {
            assert(sv.skip(j as int).len() == 0);
        }
        Ok(r)
    } else {
        proof {
            assert(sv.skip(j as int)[0] == inst_view(insts@[j as int]));
            assert(sv.skip(j as int).subrange(1, sv.skip(j as int).len() as int) =~= sv.skip(
                j as int + 1,
            ));
        }
        match resolve_inst_x(&insts[j], reg, path) {
            Err(c) => Err(c),
            Ok(d) => match resolve_from_x(insts, j + 1, reg, path) {
                Err(c) => Err(c),
                Ok(mut rest) => {
                    let ghost old_rest = rest@;
                    rest.insert(0, d);
                    proof {
                        lemma_nodes_view_insert0(old_rest, rest@[0]);
                        lemma_nodes_view(rest@);
                        lemma_nodes_view(old_rest);
                    }
                    Ok(rest)
                },
            },
        }
    }
}

/// Resolves one well-formed instance against the registry, starting from
/// an empty expansion path: the tree it denotes, or the cyclic path when
/// a template reference loops.
pub fn resolve(inst: &WidgetInstance, registry: &Registry) -> (r: Result<WidgetDef, CycleError>)
    requires
        registry.inv(),
        inst_wf(inst_view(*inst)),
    ensures
        r matches Ok(d) ==> resolve_inst(inst_view(*inst), registry@, Seq::empty()) == Ok::<
            NodeV,
            Seq<Seq<char>>,
        >(node_view(d)) && node_wf(node_view(d)),
        r matches Err(c) ==> resolve_inst(inst_view(*inst), registry@, Seq::empty()) == Err::<
            NodeV,
            Seq<Seq<char>>,
        >(c.cycle.deep_view()),
{
    let path: Vec<String> = Vec::new();
    proof {
        assert(path.deep_view() =~= Seq::<Seq<char>>::empty());
    }
    resolve_inst_x(inst, registry, &path)
}

/// Expands the named root template against the registry into one
/// fully-resolved tree: `None` when the name is not registered, the tree
/// when expansion succeeds, or the cyclic path when a template reference
/// loops.
pub fn build_widget_tree(registry: &Registry, root_name: &str) -> (r: Option<
    Result<WidgetDef, CycleError>,
>)
    requires
        registry.inv(),
    ensures
        r is None <==> expand_spec(registry@, root_name@) is None,
        r matches Some(rr) ==> {
            &&& rr matches Ok(d) ==> expand_spec(registry@, root_name@) == Some(
                Ok::<NodeV, Seq<Seq<char>>>(node_view(d)),
            ) && node_wf(node_view(d))
            &&& rr matches Err(c) ==> expand_spec(registry@, root_name@) == Some(
                Err::<NodeV, Seq<Seq<char>>>(c.cycle.deep_view()),
            )
        },
{
    match registry.get(root_name) {
        None => None,
        Some(_) => {
            let inst = WidgetInstance {
                widget: root_name.to_owned(),
                args: Vec::new(),
                children: Vec::new(),
            };
            let path: Vec<String> = Vec::new();
            proof {
                assert(args_view(inst.args@) =~= Seq::<(Seq<char>, Seq<char>)>::empty());
                assert(inst_view(inst) == root_inst(root_name@));
                assert(path.deep_view() =~= Seq::<Seq<char>>::empty());
            }
            match resolve_inst_x(&inst, registry, &path) {
                Ok(d) => Some(Ok(d)),
                Err(c) => Some(Err(c)),
            }
        },
    }
}

} // verus!
