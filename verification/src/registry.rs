//! The template registry: a name-keyed collection of parsed templates,
//! built fresh from a set of source units on every reload.
//!
//! Construction is total: a unit that fails to parse is recorded and
//! skipped, never aborting the rest of the batch.  Two units deriving the
//! same template name resolve by last-write-wins in enumeration order, and
//! the overwritten name is reported as a warning.

use vstd::prelude::*;

use crate::ast::TemplateV;
use crate::ast::Widget;
use crate::ast::template_view;
use crate::ast::template_wf;
use crate::grammar::parse_template_spec;
use crate::parser::ParseError;
use crate::parser::parse_template;
use crate::parser::str_eq;

verus! {

// ---------------------------------------------------------------------------
// Ghost model
// ---------------------------------------------------------------------------

/// Model of a registry: name/template pairs, each name at most once.
pub type RegV = Seq<(Seq<char>, TemplateV)>;

/// Looks a template up by name.
pub open spec fn reg_lookup(reg: RegV, name: Seq<char>) -> Option<TemplateV>
    decreases reg.len(),
{
    if reg.len() == 0 {
        None
    } else if reg[0].0 == name {
        Some(reg[0].1)
    } else {
        reg_lookup(reg.subrange(1, reg.len() as int), name)
    }
}

/// Whether the registry holds a template of the name.
pub open spec fn reg_has(reg: RegV, name: Seq<char>) -> bool {
    reg_lookup(reg, name) is Some
}

/// The registered names, in registration order.
pub open spec fn reg_names(reg: RegV) -> Seq<Seq<char>> {
    Seq::new(reg.len(), |i: int| reg[i].0)
}

pub open spec fn reg_keys_unique(reg: RegV) -> bool {
    forall|i: int, j: int| 0 <= i < j < reg.len() ==> (#[trigger] reg[i]).0 != (#[trigger] reg[j]).0
}

pub open spec fn reg_templates_wf(reg: RegV) -> bool {
    forall|i: int| 0 <= i < reg.len() ==> template_wf((#[trigger] reg[i]).1)
}

/// Replaces the entry of the name in place, or appends a new one.
pub open spec fn reg_upsert(reg: RegV, name: Seq<char>, t: TemplateV) -> RegV
    decreases reg.len(),
{
    if reg.len() == 0 {
        seq![(name, t)]
    } else if reg[0].0 == name {
        seq![(name, t)] + reg.subrange(1, reg.len() as int)
    } else {
        seq![reg[0]] + reg_upsert(reg.subrange(1, reg.len() as int), name, t)
    }
}

/// A name is registered exactly when some entry carries it.
pub proof fn lemma_reg_lookup(reg: RegV, name: Seq<char>)
    ensures
        reg_has(reg, name) <==> exists|i: int| 0 <= i < reg.len() && (#[trigger] reg[i]).0 == name,
    decreases reg.len(),
{
    if reg.len() > 0 {
        let tail = reg.subrange(1, reg.len() as int);
        lemma_reg_lookup(tail, name);
        if reg[0].0 == name {
            assert((reg[0]).0 == name);
        } else {
            if reg_has(reg, name) {
                let i = choose|i: int| 0 <= i < tail.len() && (#[trigger] tail[i]).0 == name;
                assert((reg[i + 1]).0 == name);
            }
            if exists|i: int| 0 <= i < reg.len() && (#[trigger] reg[i]).0 == name {
                let i = choose|i: int| 0 <= i < reg.len() && (#[trigger] reg[i]).0 == name;
                assert(tail[i - 1] == reg[i]);
            }
        }
    }
}

/// What a registered template looks up to is well-formed when the whole
/// registry is.
pub proof fn lemma_reg_lookup_wf(reg: RegV, name: Seq<char>)
    requires
        reg_templates_wf(reg),
        reg_has(reg, name),
    ensures
        template_wf(reg_lookup(reg, name)->0),
    decreases reg.len(),
{
    if reg.len() > 0 && reg[0].0 != name {
        let tail = reg.subrange(1, reg.len() as int);
        assert forall|i: int| 0 <= i < tail.len() implies template_wf(
            (#[trigger] tail[i]).1,
        ) by {
            assert(tail[i] == reg[i + 1]);
        }
        lemma_reg_lookup_wf(tail, name);
    }
}

/// How an upsert changes a single lookup.
pub proof fn lemma_reg_upsert_lookup(reg: RegV, name: Seq<char>, t: TemplateV, m: Seq<char>)
    ensures
        reg_lookup(reg_upsert(reg, name, t), name) == Some(t),
        m != name ==> reg_lookup(reg_upsert(reg, name, t), m) == reg_lookup(reg, m),
    decreases reg.len(),
{
    let up = reg_upsert(reg, name, t);
    let empty = Seq::<(Seq<char>, TemplateV)>::empty();
    if reg.len() == 0 {
        assert(up[0] == (name, t));
        assert(up.subrange(1, up.len() as int) =~= empty);
        assert(reg_lookup(empty, m) is None);
        assert(reg_lookup(empty, name) is None);
    } else {
        let tail = reg.subrange(1, reg.len() as int);
        if reg[0].0 == name {
            assert(up == seq![(name, t)] + tail);
            assert(up[0] == (name, t));
            assert(up.subrange(1, up.len() as int) =~= tail);
        } else {
            lemma_reg_upsert_lookup(tail, name, t, m);
            assert(up == seq![reg[0]] + reg_upsert(tail, name, t));
            assert(up[0] == reg[0]);
            assert(up.subrange(1, up.len() as int) =~= reg_upsert(tail, name, t));
        }
    }
}

/// How an upsert changes lookups, key uniqueness and well-formedness.
pub proof fn lemma_reg_upsert_props(reg: RegV, name: Seq<char>, t: TemplateV)
    ensures
        reg_lookup(reg_upsert(reg, name, t), name) == Some(t),
        forall|m: Seq<char>|
            m != name ==> #[trigger] reg_lookup(reg_upsert(reg, name, t), m) == reg_lookup(reg, m),
        reg_keys_unique(reg) ==> reg_keys_unique(reg_upsert(reg, name, t)),
        reg_templates_wf(reg) && template_wf(t) ==> reg_templates_wf(reg_upsert(reg, name, t)),
    decreases reg.len(),
{
    let up = reg_upsert(reg, name, t);
    lemma_reg_upsert_lookup(reg, name, t, name);
    assert forall|m: Seq<char>| m != name implies #[trigger] reg_lookup(up, m) == reg_lookup(
        reg,
        m,
    ) by {
        lemma_reg_upsert_lookup(reg, name, t, m);
    }
    if reg_keys_unique(reg) {
        assert forall|i: int, j: int| 0 <= i < j < up.len() implies (#[trigger] up[i]).0 != (
        #[trigger] up[j]).0 by {
            lemma_reg_upsert_unique_pair(reg, name, t, i, j);
        }
    }
    if reg_templates_wf(reg) && template_wf(t) {
        assert forall|i: int| 0 <= i < up.len() implies template_wf((#[trigger] up[i]).1) by {
            lemma_reg_upsert_entry_wf(reg, name, t, i);
        }
    }
}

/// Every entry of an upsert is well-formed when the registry's entries
/// and the new template are.
proof fn lemma_reg_upsert_entry_wf(reg: RegV, name: Seq<char>, t: TemplateV, i: int)
    requires
        reg_templates_wf(reg),
        template_wf(t),
        0 <= i < reg_upsert(reg, name, t).len(),
    ensures
        template_wf(reg_upsert(reg, name, t)[i].1),
    decreases reg.len(),
{
    let up = reg_upsert(reg, name, t);
    if reg.len() == 0 {
    } else {
        let tail = reg.subrange(1, reg.len() as int);
        assert forall|q: int| 0 <= q < tail.len() implies template_wf(
            (#[trigger] tail[q]).1,
        ) by {
            assert(tail[q] == reg[q + 1]);
        }
        if reg[0].0 == name {
            if i > 0 {
                assert(up[i] == tail[i - 1]);
            }
        } else {
            if i == 0 {
                assert(up[0] == reg[0]);
            } else {
                assert(up[i] == reg_upsert(tail, name, t)[i - 1]);
                lemma_reg_upsert_entry_wf(tail, name, t, i - 1);
            }
        }
    }
}

/// Every key of an upsert is a key of the registry or the upserted name.
proof fn lemma_reg_upsert_names(reg: RegV, name: Seq<char>, t: TemplateV, i: int)
    requires
        0 <= i < reg_upsert(reg, name, t).len(),
    ensures
        reg_upsert(reg, name, t)[i].0 == name || exists|j: int|
            0 <= j < reg.len() && (#[trigger] reg[j]).0 == reg_upsert(reg, name, t)[i].0,
    decreases reg.len(),
{
    let up = reg_upsert(reg, name, t);
    if reg.len() == 0 {
    } else if reg[0].0 == name {
        if i > 0 {
            assert(up[i] == reg.subrange(1, reg.len() as int)[i - 1]);
            assert(up[i] == reg[i]);
        }
    } else {
        let tail = reg.subrange(1, reg.len() as int);
        if i == 0 {
            assert(up[0] == reg[0]);
        } else {
            assert(up[i] == reg_upsert(tail, name, t)[i - 1]);
            lemma_reg_upsert_names(tail, name, t, i - 1);
            if up[i].0 != name {
                let j = choose|j: int|
                    0 <= j < tail.len() && (#[trigger] tail[j]).0 == up[i].0;
                assert(reg[j + 1].0 == up[i].0);
            }
        }
    }
}

/// An upsert keeps distinct keys distinct.
proof fn lemma_reg_upsert_unique_pair(reg: RegV, name: Seq<char>, t: TemplateV, i: int, j: int)
    requires
        reg_keys_unique(reg),
        0 <= i < j < reg_upsert(reg, name, t).len(),
    ensures
        reg_upsert(reg, name, t)[i].0 != reg_upsert(reg, name, t)[j].0,
    decreases reg.len(),
{
    let up = reg_upsert(reg, name, t);
    if reg.len() == 0 {
    } else {
        let tail = reg.subrange(1, reg.len() as int);
        assert forall|p: int, q: int| 0 <= p < q < tail.len() implies (
        #[trigger] tail[p]).0 != (#[trigger] tail[q]).0 by {
            assert(tail[p] == reg[p + 1]);
            assert(tail[q] == reg[q + 1]);
        }
        if reg[0].0 == name {
            assert(up == seq![(name, t)] + tail);
            if i == 0 {
                assert(up[j] == tail[j - 1]);
                assert(tail[j - 1] == reg[j]);
            } else {
                assert(up[i] == reg[i]);
                assert(up[j] == reg[j]);
            }
        } else {
            assert(up == seq![reg[0]] + reg_upsert(tail, name, t));
            if i == 0 {
                assert(up[j] == reg_upsert(tail, name, t)[j - 1]);
                lemma_reg_upsert_names(tail, name, t, j - 1);
                if up[j].0 != name {
                    let q = choose|q: int|
                        0 <= q < tail.len() && (#[trigger] tail[q]).0 == up[j].0;
                    assert(reg[q + 1].0 == up[j].0);
                }
            } else {
                assert(up[i] == reg_upsert(tail, name, t)[i - 1]);
                assert(up[j] == reg_upsert(tail, name, t)[j - 1]);
                lemma_reg_upsert_unique_pair(tail, name, t, i - 1, j - 1);
            }
        }
    }
}

// ---------------------------------------------------------------------------
// The registry
// ---------------------------------------------------------------------------

/// The registry of templates available to one expansion run.
#[derive(Debug)]
pub struct Registry {
    templates: Vec<(String, Widget)>,
}

impl View for Registry {
    type V = RegV;

    closed spec fn view(&self) -> RegV {
        Seq::new(
            self.templates@.len(),
            |i: int| (self.templates@[i].0@, template_view(self.templates@[i].1)),
        )
    }
}

impl Registry {
    /// Keys are unique and every registered template is well-formed.
    pub open spec fn inv(&self) -> bool {
        reg_keys_unique(self@) && reg_templates_wf(self@)
    }

    /// An empty registry.
    pub fn new() -> (r: Registry)
        ensures
            r@ == Seq::<(Seq<char>, TemplateV)>::empty(),
            r.inv(),
    {
        let r = Registry { templates: Vec::new() };
        proof {
            assert(r@ =~= Seq::<(Seq<char>, TemplateV)>::empty());
        }
        r
    }

    /// How many templates are registered.
    pub fn len(&self) -> (r: usize)
        ensures
            r == self@.len(),
    {
        self.templates.len()
    }

    /// Registers a template under the name, replacing any previous entry
    /// of that name in place.
    pub fn insert(&mut self, name: String, w: Widget)
        requires
            old(self).inv(),
            template_wf(template_view(w)),
        ensures
            final(self).inv(),
            final(self)@ == reg_upsert(old(self)@, name@, template_view(w)),
    {
        proof {
            lemma_reg_upsert_props(old(self)@, name@, template_view(w));
        }
        let ghost oldv = self@;
        let ghost gname = name@;
        let ghost gtv = template_view(w);
        let mut i: usize = 0;
        while i < self.templates.len()
            invariant
                i <= self.templates@.len(),
                self.templates@ == old(self).templates@,
                forall|j: int| 0 <= j < i ==> oldv[j].0 != gname,
                oldv == self@,
                oldv == old(self)@,
                gname == name@,
                gtv == template_view(w),
                old(self).inv(),
                template_wf(gtv),
            decreases self.templates@.len() - i,
        {
            if str_eq(self.templates[i].0.as_str(), name.as_str()) {
                let ghost oldts = self.templates@;
                let pair = (name, w);
                let ghost gpair = pair;
                self.templates.remove(i);
                self.templates.insert(i, pair);
                proof {
                    assert(self.templates@ =~= oldts.update(i as int, gpair));
                    let target = oldv.update(i as int, (gname, gtv));
                    assert forall|j: int| 0 <= j < self@.len() implies self@[j] == target[j] by {
                        if j == i {
                            assert(self.templates@[j] == gpair);
                        } else {
                            assert(self.templates@[j] == oldts[j]);
                        }
                    }
                    assert(self@ =~= target);
                    lemma_reg_upsert_first_match(oldv, gname, gtv, i as int);
                    lemma_reg_upsert_props(oldv, gname, gtv);
                }
                return ;
            }
            i += 1;
        }
        let pair = (name, w);
        let ghost gpair = pair;
        self.templates.push(pair);
        proof {
            let target = oldv.push((gname, gtv));
            assert forall|j: int| 0 <= j < self@.len() implies self@[j] == target[j] by {
                if j == oldv.len() {
                    assert(self.templates@[j] == gpair);
                } else {
                    assert(self.templates@[j] == old(self).templates@[j]);
                }
            }
            assert(self@ =~= target);
            lemma_reg_upsert_no_match(oldv, gname, gtv);
            lemma_reg_upsert_props(oldv, gname, gtv);
        }
    }

    /// Looks a template up by name.
    pub fn get(&self, name: &str) -> (r: Option<&Widget>)
        ensures
            match r {
                Some(w) => reg_lookup(self@, name@) == Some(template_view(*w)),
                None => reg_lookup(self@, name@) is None,
            },
    {
        proof {
            assert(self@.subrange(0, self@.len() as int) =~= self@);
        }
        let mut i: usize = 0;
        while i < self.templates.len()
            invariant
                i <= self.templates@.len(),
                forall|j: int| 0 <= j < i ==> self@[j].0 != name@,
                reg_lookup(self@, name@) == reg_lookup(
                    self@.subrange(i as int, self@.len() as int),
                    name@,
                ),
            decreases self.templates@.len() - i,
        {
            let ghost pre = self@.subrange(i as int, self@.len() as int);
            if str_eq(self.templates[i].0.as_str(), name) {
                proof {
                    assert(pre[0] == self@[i as int]);
                }
                return Some(&self.templates[i].1);
            }
            i += 1;
            proof {
                assert(pre[0] == self@[i - 1]);
                assert(pre.subrange(1, pre.len() as int) =~= self@.subrange(
                    i as int,
                    self@.len() as int,
                ));
            }
        }
        proof {
            assert(self@.subrange(i as int, self@.len() as int).len() == 0);
            assert(reg_lookup(self@.subrange(i as int, self@.len() as int), name@) is None);
        }
        None
    }
}

// ---------------------------------------------------------------------------
// Building from source units
// ---------------------------------------------------------------------------

/// A unit that failed to parse, with its error.
#[derive(Debug)]
pub struct UnitError {
    pub unit: String,
    pub error: ParseError,
}

/// The registry a sequence of `(unit name, source text)` pairs builds:
/// each unit that parses is registered under its name, later units
/// overriding earlier ones of the same name; a unit that fails to parse
/// is skipped.
pub open spec fn build_spec(units: Seq<(Seq<char>, Seq<char>)>) -> RegV
    decreases units.len(),
{
    if units.len() == 0 {
        Seq::empty()
    } else {
        let prev = build_spec(units.drop_last());
        let u = units.last();
        match parse_template_spec(u.1, u.0) {
            Some(t) => reg_upsert(prev, u.0, t),
            None => prev,
        }
    }
}

/// The names of the units that fail to parse, in enumeration order.
pub open spec fn build_errors_spec(units: Seq<(Seq<char>, Seq<char>)>) -> Seq<Seq<char>>
    decreases units.len(),
{
    if units.len() == 0 {
        Seq::empty()
    } else {
        let prev = build_errors_spec(units.drop_last());
        let u = units.last();
        match parse_template_spec(u.1, u.0) {
            Some(_) => prev,
            None => prev.push(u.0),
        }
    }
}

/// The names that a later unit overrides, in enumeration order.
pub open spec fn build_dups_spec(units: Seq<(Seq<char>, Seq<char>)>) -> Seq<Seq<char>>
    decreases units.len(),
{
    if units.len() == 0 {
        Seq::empty()
    } else {
        let prev = build_dups_spec(units.drop_last());
        let u = units.last();
        match parse_template_spec(u.1, u.0) {
            Some(_) => {
                if reg_has(build_spec(units.drop_last()), u.0) {
                    prev.push(u.0)
                } else {
                    prev
                }
            },
            None => prev,
        }
    }
}

/// The unit names a list of unit errors reports.
pub open spec fn unit_error_names(es: Seq<UnitError>) -> Seq<Seq<char>> {
    Seq::new(es.len(), |i: int| es[i].unit@)
}

/// A name no unit bears is absent from the built registry.
proof fn lemma_build_absent(units: Seq<(Seq<char>, Seq<char>)>, name: Seq<char>)
    requires
        forall|i: int| 0 <= i < units.len() ==> (#[trigger] units[i]).0 != name,
    ensures
        !reg_has(build_spec(units), name),
    decreases units.len(),
{
    if units.len() == 0 {
        assert(reg_lookup(Seq::<(Seq<char>, TemplateV)>::empty(), name) is None);
    } else {
        let rest = units.drop_last();
        assert forall|i: int| 0 <= i < rest.len() implies (#[trigger] rest[i]).0 != name by {
            assert(rest[i] == units[i]);
        }
        lemma_build_absent(rest, name);
        let u = units.last();
        assert(u == units[units.len() - 1]);
        match parse_template_spec(u.1, u.0) {
            Some(t) => {
                lemma_reg_upsert_lookup(build_spec(rest), u.0, t, name);
            },
            None => {},
        }
    }
}

/// Batch resilience: whether one unit's template is registered depends on
/// that unit alone.  When unit names are distinct, a unit that parses is
/// registered with exactly its parse, and a unit that fails to parse is
/// absent, whatever became of the other units.
pub proof fn lemma_batch_resilience(units: Seq<(Seq<char>, Seq<char>)>, k: int)
    requires
        0 <= k < units.len(),
        forall|i: int, j: int|
            0 <= i < j < units.len() ==> (#[trigger] units[i]).0 != (#[trigger] units[j]).0,
    ensures
        parse_template_spec(units[k].1, units[k].0) matches Some(t) ==> reg_lookup(
            build_spec(units),
            units[k].0,
        ) == Some(t),
        parse_template_spec(units[k].1, units[k].0) is None ==> !reg_has(
            build_spec(units),
            units[k].0,
        ),
    decreases units.len(),
{
    let u = units.last();
    let rest = units.drop_last();
    let prev = build_spec(rest);
    if k == units.len() - 1 {
        assert(u == units[k]);
        match parse_template_spec(u.1, u.0) {
            Some(t) => {
                lemma_reg_upsert_lookup(prev, u.0, t, u.0);
            },
            None => {
                assert forall|i: int| 0 <= i < rest.len() implies (#[trigger] rest[i]).0
                    != u.0 by {
                    assert(rest[i] == units[i]);
                }
                lemma_build_absent(rest, u.0);
            },
        }
    } else {
        assert forall|i: int, j: int| 0 <= i < j < rest.len() implies (#[trigger] rest[i]).0 != (
        #[trigger] rest[j]).0 by {
            assert(rest[i] == units[i]);
            assert(rest[j] == units[j]);
        }
        assert(rest[k] == units[k]);
        lemma_batch_resilience(rest, k);
        assert(u == units[units.len() - 1]);
        assert(u.0 != units[k].0);
        match parse_template_spec(u.1, u.0) {
            Some(t) => {
                lemma_reg_upsert_lookup(prev, u.0, t, units[k].0);
            },
            None => {},
        }
    }
}

impl Registry {
    /// Builds a registry from `(unit name, source text)` pairs: parses
    /// each unit, registers the ones that parse (last write wins on a
    /// repeated name), and reports the units that failed and the names
    /// that were overridden.  Construction is total: one bad unit never
    /// aborts the rest.
    pub fn build(units: &Vec<(String, String)>) -> (r: (Registry, Vec<UnitError>, Vec<String>))
        ensures
            r.0@ == build_spec(units.deep_view()),
            r.0.inv(),
            unit_error_names(r.1@) == build_errors_spec(units.deep_view()),
            r.2.deep_view() == build_dups_spec(units.deep_view()),
    {
        let ghost uv = units.deep_view();
        let mut reg = Registry::new();
        let mut errors: Vec<UnitError> = Vec::new();
        let mut dups: Vec<String> = Vec::new();
        proof {
            assert(uv.take(0) =~= Seq::<(Seq<char>, Seq<char>)>::empty());
            assert(unit_error_names(errors@) =~= Seq::<Seq<char>>::empty());
            assert(dups.deep_view() =~= Seq::<Seq<char>>::empty());
        }
        let mut i: usize = 0;
        while i < units.len()
            invariant
                i <= units@.len(),
                uv == units.deep_view(),
                uv.len() == units@.len(),
                reg@ == build_spec(uv.take(i as int)),
                reg.inv(),
                unit_error_names(errors@) == build_errors_spec(uv.take(i as int)),
                dups.deep_view() == build_dups_spec(uv.take(i as int)),
            decreases units@.len() - i,
        {
            let name = &units[i].0;
            let text = &units[i].1;
            let ghost prefix = uv.take(i as int);
            let ghost prefix2 = uv.take(i as int + 1);
            proof {
                assert(prefix2.drop_last() =~= prefix);
                assert(prefix2.last() == uv[i as int]);
                assert(uv[i as int] == (units@[i as int].0@, units@[i as int].1@));
            }
            match parse_template(text.as_str(), name.as_str()) {
                Ok(w) => {
                    let ghost old_dups = dups.deep_view();
                    if reg.get(name.as_str()).is_some() {
                        dups.push(name.clone());
                        proof {
                            assert(dups.deep_view() =~= old_dups.push(name@));
                        }
                    }
                    reg.insert(name.clone(), w);
                },
                Err(e) => {
                    let ghost old_names = unit_error_names(errors@);
                    errors.push(UnitError { unit: name.clone(), error: e });
                    proof {
                        assert(unit_error_names(errors@) =~= old_names.push(name@));
                    }
                },
            }
            i += 1;
        }
        proof {
            assert(uv.take(units@.len() as int) =~= uv);
        }
        (reg, errors, dups)
    }
}

/// An upsert whose name first matches at `idx` updates that entry.
proof fn lemma_reg_upsert_first_match(reg: RegV, name: Seq<char>, t: TemplateV, idx: int)
    requires
        0 <= idx < reg.len(),
        reg[idx].0 == name,
        forall|j: int| 0 <= j < idx ==> (#[trigger] reg[j]).0 != name,
    ensures
        reg_upsert(reg, name, t) == reg.update(idx, (name, t)),
    decreases reg.len(),
{
    let tail = reg.subrange(1, reg.len() as int);
    if idx == 0 {
        assert(reg_upsert(reg, name, t) =~= reg.update(0, (name, t)));
    } else {
        assert forall|j: int| 0 <= j < idx - 1 implies (#[trigger] tail[j]).0 != name by {
            assert(tail[j] == reg[j + 1]);
        }
        assert(tail[idx - 1] == reg[idx]);
        lemma_reg_upsert_first_match(tail, name, t, idx - 1);
        assert(reg_upsert(reg, name, t) =~= reg.update(idx, (name, t)));
    }
}

/// An upsert of an unregistered name appends.
proof fn lemma_reg_upsert_no_match(reg: RegV, name: Seq<char>, t: TemplateV)
    requires
        forall|j: int| 0 <= j < reg.len() ==> (#[trigger] reg[j]).0 != name,
    ensures
        reg_upsert(reg, name, t) == reg.push((name, t)),
    decreases reg.len(),
{
    if reg.len() == 0 {
        assert(reg_upsert(reg, name, t) =~= reg.push((name, t)));
    } else {
        let tail = reg.subrange(1, reg.len() as int);
        assert forall|j: int| 0 <= j < tail.len() implies (#[trigger] tail[j]).0 != name by {
            assert(tail[j] == reg[j + 1]);
        }
        lemma_reg_upsert_no_match(tail, name, t);
        assert(reg_upsert(reg, name, t) =~= reg.push((name, t)));
    }
}

} // verus!
