pub mod magic_var;

use vstd::prelude::*;
use vstd::string::*;
use crate::compiler::base::BlobId;
use crate::compiler::visitors::magic_vars_collector::{type_valid, MagicVariableType};
use crate::compiler::visitors::variable_collector::text_at;
use crate::compiler::visitors::variable_collector::variable::{entry_index, lemma_entry_index};
use crate::diagnostics::location::Range;
use crate::js_parser::input::InputPresenter;
use crate::js_parser::parser::ast::{ASTAccess, ASTAccessContent, ASTExpression, wf_expr};
use crate::js_parser::tokenizer::TokenKind;
use crate::parser::ast::model::str_eq;
use self::magic_var::{MagicObject, MagicVariable, MagicVariableInstance, common_type, instances_of, lemma_same_names};

verus! {

/// Every assignment that can be looked up gives a valid type.
pub open spec fn object_ok(o: Seq<(String, MagicVariable)>, n: int) -> bool {
    forall|k: Seq<char>, i: int|
        0 <= i < instances_of(o, k).len() ==> type_valid(#[trigger] instances_of(o, k)[i].value, n)
}

pub proof fn lemma_object_ok_grows(o: Seq<(String, MagicVariable)>, n: int, m: int)
    requires
        object_ok(o, n),
        n <= m,
    ensures
        object_ok(o, m),
{
    assert forall|k: Seq<char>, i: int| 0 <= i < instances_of(o, k).len() implies type_valid(
        #[trigger] instances_of(o, k)[i].value,
        m,
    ) by {
        assert(type_valid(instances_of(o, k)[i].value, n));
    }
}

pub proof fn lemma_object_ok_insert(
    before: Seq<(String, MagicVariable)>,
    after: Seq<(String, MagicVariable)>,
    key: Seq<char>,
    x: MagicVariableInstance,
    n: int,
)
    requires
        object_ok(before, n),
        type_valid(x.value, n),
        instances_of(after, key) == instances_of(before, key).push(x),
        forall|k: Seq<char>| k != key ==> #[trigger] instances_of(after, k) == instances_of(before, k),
    ensures
        object_ok(after, n),
{
    assert forall|k: Seq<char>, i: int| 0 <= i < instances_of(after, k).len() implies type_valid(
        #[trigger] instances_of(after, k)[i].value,
        n,
    ) by {
        if k != key {
            assert(instances_of(after, k) == instances_of(before, k));
        } else if i < instances_of(before, k).len() {
            assert(instances_of(after, k)[i] == instances_of(before, k)[i]);
        }
    }
}

/// The magic variables of a story and the objects they refer to; object `i`
/// is the `i`th one made.
#[derive(Debug)]
pub struct MagicVariableCollectorContext {
    pub variables: MagicObject,
    pub objects: Vec<MagicObject>,
    pub counter: u32,
}

/// The assignments that did not come from `origin`.
pub open spec fn keep_other(v: Seq<MagicVariableInstance>, origin: BlobId) -> Seq<MagicVariableInstance>
    decreases v.len(),
{
    if v.len() == 0 {
        seq![]
    } else if v.last().origin == origin {
        keep_other(v.drop_last(), origin)
    } else {
        keep_other(v.drop_last(), origin).push(v.last())
    }
}

pub proof fn lemma_keep_other_subset(v: Seq<MagicVariableInstance>, origin: BlobId)
    ensures
        forall|i: int| 0 <= i < keep_other(v, origin).len() ==> exists|j: int| 0 <= j < v.len() && #[trigger] keep_other(v, origin)[i] == v[j],
    decreases v.len(),
{
    if v.len() > 0 {
        lemma_keep_other_subset(v.drop_last(), origin);
        let init = keep_other(v.drop_last(), origin);
        assert forall|i: int| 0 <= i < keep_other(v, origin).len() implies exists|j: int| 0 <= j < v.len() && #[trigger] keep_other(v, origin)[i] == v[j] by {
            if i < init.len() {
                let j = choose|j: int| 0 <= j < v.drop_last().len() && init[i] == v.drop_last()[j];
                assert(keep_other(v, origin)[i] == v[j]);
            } else {
                assert(keep_other(v, origin)[i] == v[v.len() - 1]);
            }
        }
    }
}

/// Forgets the assignments of one variable that came from `origin`.
fn retain_other(v: &mut MagicVariable, origin: BlobId)
    ensures
        final(v).0@ == keep_other(old(v).0@, origin),
{
    let mut kept: Vec<MagicVariableInstance> = Vec::new();
    let ghost all = v.0@;
    while v.0.len() > 0
        invariant
            kept@ + keep_other_front(v.0@, origin) == keep_other_front(all, origin),
        decreases v.0@.len(),
    {
        let ghost rest = v.0@;
        let item = v.0.remove(0);
        assert(rest =~= seq![item] + v.0@);
        if item.origin != origin {
            kept.push(item);
            assert(kept@ + keep_other_front(v.0@, origin) =~= kept@.drop_last() + keep_other_front(rest, origin));
        }
    }
    assert(kept@ + Seq::<MagicVariableInstance>::empty() =~= kept@);
    proof {
        lemma_keep_other_front(all, origin);
    }
    v.0 = kept;
}

/// The assignments that did not come from `origin`, taken from the front.
pub open spec fn keep_other_front(v: Seq<MagicVariableInstance>, origin: BlobId) -> Seq<MagicVariableInstance>
    decreases v.len(),
{
    if v.len() == 0 {
        seq![]
    } else if v[0].origin == origin {
        keep_other_front(v.drop_first(), origin)
    } else {
        seq![v[0]] + keep_other_front(v.drop_first(), origin)
    }
}

pub proof fn lemma_keep_other_front(v: Seq<MagicVariableInstance>, origin: BlobId)
    ensures
        keep_other_front(v, origin) == keep_other(v, origin),
    decreases v.len(),
{
    if v.len() > 0 {
        lemma_keep_other_front(v.drop_first(), origin);
        lemma_keep_other_front(v.drop_last(), origin);
        if v.len() > 1 {
            lemma_keep_other_front(v.drop_first().drop_last(), origin);
            assert(v.drop_first().drop_last() =~= v.drop_last().drop_first());
            assert(v.drop_first().last() == v.last());
            assert(v.drop_last()[0] == v[0]);
        } else {
            assert(v.drop_first() =~= Seq::<MagicVariableInstance>::empty());
            assert(v.drop_last() =~= Seq::<MagicVariableInstance>::empty());
        }
        assert(keep_other_front(v, origin) =~= keep_other(v, origin));
    }
}

/// Forgets, in every variable of an object, the assignments from `origin`.
fn object_remove_origin(o: &mut MagicObject, origin: BlobId)
    ensures
        forall|k: Seq<char>| #[trigger] instances_of(final(o).0@, k) == keep_other(instances_of(old(o).0@, k), origin),
{
    let ghost start = o.0@;
    let mut i: usize = 0;
    while i < o.0.len()
        invariant
            o.0@.len() == start.len(),
            0 <= i <= start.len(),
            forall|j: int| 0 <= j < start.len() ==> (#[trigger] o.0@[j]).0 == start[j].0,
            forall|j: int| 0 <= j < i ==> (#[trigger] o.0@[j]).1.0@ == keep_other(start[j].1.0@, origin),
            forall|j: int| i <= j < start.len() ==> (#[trigger] o.0@[j]) == start[j],
        decreases start.len() - i,
    {
        let (name, mut var) = o.0.remove(i);
        retain_other(&mut var, origin);
        o.0.insert(i, (name, var));
        i = i + 1;
    }
    proof {
        assert forall|k: Seq<char>| #[trigger] instances_of(o.0@, k) == keep_other(instances_of(start, k), origin) by {
            assert forall|j: int| 0 <= j < o.0@.len() implies #[trigger] o.0@[j].0@ == start[j].0@ by {}
            lemma_same_names(o.0@, start, k);
            lemma_entry_index(start, k);
            match entry_index(start, k) {
                Some(j) => {},
                None => {
                    assert(keep_other(Seq::<MagicVariableInstance>::empty(), origin) =~= Seq::<MagicVariableInstance>::empty());
                },
            }
        }
    }
}

impl MagicVariableCollectorContext {
    /// There is an object for each number handed out, and every reference
    /// names one of them.
    pub open spec fn wf(&self) -> bool {
        &&& self.objects@.len() == self.counter
        &&& object_ok(self.variables.0@, self.counter as int)
        &&& forall|i: int| 0 <= i < self.objects@.len() ==> object_ok(#[trigger] self.objects@[i].0@, self.counter as int)
    }

    pub fn new() -> (c: Self)
        ensures
            c.wf(),
            c.counter == 0,
            c.variables.0@.len() == 0,
    {
        MagicVariableCollectorContext { variables: MagicObject::new(), objects: Vec::new(), counter: 0 }
    }

    /// Makes a new empty object; gives its number.
    pub fn create_obj(&mut self) -> (id: u32)
        requires
            old(self).wf(),
            old(self).counter < u32::MAX,
        ensures
            final(self).wf(),
            id == old(self).counter,
            final(self).counter == old(self).counter + 1,
            final(self).variables == old(self).variables,
            final(self).objects@.len() == old(self).objects@.len() + 1,
            forall|i: int| 0 <= i < old(self).objects@.len() ==> #[trigger] final(self).objects@[i] == old(self).objects@[i],
            ctx_view(*final(self)) == with_new_obj(ctx_view(*old(self))),
    {
        let id = self.counter;
        self.counter = self.counter + 1;
        self.objects.push(MagicObject::new());
        proof {
            lemma_object_ok_grows(self.variables.0@, old(self).counter as int, self.counter as int);
            assert forall|i: int| 0 <= i < self.objects@.len() implies object_ok(#[trigger] self.objects@[i].0@, self.counter as int) by {
                if i < self.objects@.len() - 1 {
                    assert(object_ok(old(self).objects@[i].0@, old(self).counter as int));
                    lemma_object_ok_grows(self.objects@[i].0@, old(self).counter as int, self.counter as int);
                } else {
                    assert forall|k: Seq<char>, j: int| 0 <= j < instances_of(self.objects@[i].0@, k).len() implies type_valid(
                        #[trigger] instances_of(self.objects@[i].0@, k)[j].value,
                        self.counter as int,
                    ) by {
                        assert(entry_index(self.objects@[i].0@, k).is_none());
                    }
                }
            }
            let n = self.objects@.len() - 1;
            assert(obj_map(self.objects@[n].0@) =~= Map::new(|k: Seq<char>| true, |k: Seq<char>| Seq::<MagicVariableInstance>::empty())) by {
                assert forall|k: Seq<char>| true implies entry_index(#[trigger] self.objects@[n].0@, k).is_none() by {}
            }
            assert(ctx_view(*self).objs =~= with_new_obj(ctx_view(*old(self))).objs);
        }
        id
    }

    /// Forgets every assignment that came from `origin`.
    pub fn remove_from_origin(&mut self, origin: &BlobId)
        requires
            old(self).wf(),
        ensures
            final(self).wf(),
            final(self).counter == old(self).counter,
            forall|k: Seq<char>| #[trigger] instances_of(final(self).variables.0@, k) == keep_other(
                instances_of(old(self).variables.0@, k),
                *origin,
            ),
            final(self).objects@.len() == old(self).objects@.len(),
            forall|j: int, k: Seq<char>| 0 <= j < old(self).objects@.len() ==> #[trigger] instances_of(final(self).objects@[j].0@, k) == keep_other(
                instances_of(old(self).objects@[j].0@, k),
                *origin,
            ),
    {
        let ghost n = self.counter as int;
        object_remove_origin(&mut self.variables, *origin);
        proof {
            lemma_remove_keeps_ok(old(self).variables.0@, self.variables.0@, *origin, n);
        }
        let mut i: usize = 0;
        while i < self.objects.len()
            invariant
                n == self.counter,
                self.objects@.len() == self.counter,
                object_ok(self.variables.0@, n),
                forall|j: int| 0 <= j < self.objects@.len() ==> object_ok(#[trigger] self.objects@[j].0@, n),
                forall|k: Seq<char>| #[trigger] instances_of(self.variables.0@, k) == keep_other(
                    instances_of(old(self).variables.0@, k),
                    *origin,
                ),
                i <= self.objects@.len(),
                self.objects@.len() == old(self).objects@.len(),
                forall|j: int| i <= j < self.objects@.len() ==> #[trigger] self.objects@[j] == old(self).objects@[j],
                forall|j: int, k: Seq<char>| 0 <= j < i ==> #[trigger] instances_of(self.objects@[j].0@, k) == keep_other(
                    instances_of(old(self).objects@[j].0@, k),
                    *origin,
                ),
            decreases self.objects@.len() - i,
        {
            let mut obj = self.objects.remove(i);
            let ghost before = obj.0@;
            assert(object_ok(before, n));
            object_remove_origin(&mut obj, *origin);
            proof {
                lemma_remove_keeps_ok(before, obj.0@, *origin, n);
            }
            self.objects.insert(i, obj);
            proof {
                assert forall|j: int| 0 <= j < self.objects@.len() implies object_ok(#[trigger] self.objects@[j].0@, n) by {
                    if j < i {
                        assert(self.objects@[j] == old(self).objects@[j] || object_ok(self.objects@[j].0@, n));
                    }
                }
            }
            i = i + 1;
        }
    }
}

pub proof fn lemma_remove_keeps_ok(before: Seq<(String, MagicVariable)>, after: Seq<(String, MagicVariable)>, origin: BlobId, n: int)
    requires
        object_ok(before, n),
        forall|k: Seq<char>| #[trigger] instances_of(after, k) == keep_other(instances_of(before, k), origin),
    ensures
        object_ok(after, n),
{
    assert forall|k: Seq<char>, i: int| 0 <= i < instances_of(after, k).len() implies type_valid(
        #[trigger] instances_of(after, k)[i].value,
        n,
    ) by {
        lemma_keep_other_subset(instances_of(before, k), origin);
        let j = choose|j: int| 0 <= j < instances_of(before, k).len() && keep_other(instances_of(before, k), origin)[i] == instances_of(before, k)[j];
        assert(type_valid(instances_of(before, k)[j].value, n));
    }
}


/// The assignments under each name of an object; a name without any has none.
pub open spec fn obj_map(o: Seq<(String, MagicVariable)>) -> Map<Seq<char>, Seq<MagicVariableInstance>> {
    Map::new(|k: Seq<char>| true, |k: Seq<char>| instances_of(o, k))
}

/// What a collector context holds, as plain values.
#[verifier::ext_equal]
pub struct MagicState {
    pub vars: Map<Seq<char>, Seq<MagicVariableInstance>>,
    pub objs: Seq<Map<Seq<char>, Seq<MagicVariableInstance>>>,
    pub counter: nat,
}

pub open spec fn ctx_view(c: MagicVariableCollectorContext) -> MagicState {
    MagicState {
        vars: obj_map(c.variables.0@),
        objs: Seq::new(c.objects@.len(), |i: int| obj_map(c.objects@[i].0@)),
        counter: c.counter as nat,
    }
}

/// The state once the top-level variable `key` got one more assignment.
pub open spec fn with_var(s: MagicState, key: Seq<char>, x: MagicVariableInstance) -> MagicState {
    MagicState { vars: s.vars.insert(key, s.vars[key].push(x)), objs: s.objs, counter: s.counter }
}

/// The state once property `key` of object `id` got one more assignment.
pub open spec fn with_prop(s: MagicState, id: int, key: Seq<char>, x: MagicVariableInstance) -> MagicState {
    MagicState {
        vars: s.vars,
        objs: s.objs.update(id, s.objs[id].insert(key, s.objs[id][key].push(x))),
        counter: s.counter,
    }
}

/// The state once a new empty object was made; its number is the old counter.
pub open spec fn with_new_obj(s: MagicState) -> MagicState {
    MagicState {
        vars: s.vars,
        objs: s.objs.push(Map::new(|k: Seq<char>| true, |k: Seq<char>| Seq::<MagicVariableInstance>::empty())),
        counter: s.counter + 1,
    }
}

/// A range of the javascript as a range of the whole text (additions saturate).
pub open spec fn shifted(sp: Range<usize>, r: Range<usize>) -> Range<usize> {
    let start: int = if sp.start + r.start <= usize::MAX { sp.start + r.start } else { usize::MAX as int };
    let end: int = if start + r.end <= usize::MAX { start + r.end } else { usize::MAX as int };
    Range { start: start as usize, end: end as usize }
}

/// The text an accessor spells: a name, a string or a number.
pub open spec fn accessor_text(a: ASTAccessContent, d: Seq<u8>) -> Option<Seq<char>> {
    match a {
        ASTAccessContent::Identifier(i) => Some(text_at(d, i.range)),
        ASTAccessContent::Expression(x) => match x {
            ASTExpression::String(s) => Some(text_at(d, s.range)),
            ASTExpression::Number(n) => Some(text_at(d, n.range)),
            _ => None,
        },
    }
}

/// The names of a chain of property accesses, outermost first, each with the
/// range of its access, and the range of the variable the chain starts from;
/// none where an accessor spells no text or the chain starts from no variable.
pub open spec fn chain_names(e: ASTExpression, d: Seq<u8>) -> Option<(Seq<(Seq<char>, Range<usize>)>, Range<usize>)>
    decreases e,
{
    match e {
        ASTExpression::Access(acc) => match accessor_text(acc.accessor, d) {
            Some(t) => match chain_names(acc.expression, d) {
                Some(p) => Some((seq![(t, acc.range)] + p.0, p.1)),
                None => None,
            },
            None => None,
        },
        ASTExpression::Identifier(i) => Some((seq![], i.range)),
        _ => None,
    }
}

/// The type every assignment agrees on, unknown where they do not.
pub open spec fn known(v: Seq<MagicVariableInstance>) -> MagicVariableType {
    match common_type(v) {
        Some(t) => t,
        None => MagicVariableType::Unknown,
    }
}

/// Follows the first `i` names, innermost first, from object `store`; a name
/// that refers to no object gets a new one. Gives the state and the object
/// reached; none where no number was left for a new object.
pub open spec fn walk(
    s: MagicState,
    store: u32,
    names: Seq<(Seq<char>, Range<usize>)>,
    i: int,
    origin: BlobId,
) -> (MagicState, Option<u32>)
    decreases i,
{
    if i <= 0 {
        (s, Some(store))
    } else {
        let name = names[i - 1];
        match common_type(s.objs[store as int][name.0]) {
            Some(MagicVariableType::ObjectRef(id)) => walk(s, id, names, i - 1, origin),
            _ => if s.counter >= u32::MAX {
                (s, None)
            } else {
                let id = s.counter as u32;
                let x = MagicVariableInstance { origin, value: MagicVariableType::ObjectRef(id), range: name.1 };
                walk(with_prop(with_new_obj(s), store as int, name.0, x), id, names, i - 1, origin)
            },
        }
    }
}

/// The names gathered so far, each with the range of its access.
pub open spec fn names_of(v: Seq<(String, Range<usize>)>) -> Seq<(Seq<char>, Range<usize>)> {
    Seq::new(v.len(), |j: int| (v[j].0@, v[j].1))
}

/// Where a property access leads: the object that holds its last property and
/// that property's name, with the objects made on the way.
pub open spec fn spec_resolve_access(
    s: MagicState,
    access: ASTAccess,
    d: Seq<u8>,
    origin: BlobId,
    sp: Range<usize>,
) -> (MagicState, Option<(u32, Seq<char>)>) {
    match chain_names(access.expression, d) {
        None => (s, None),
        Some(c) => {
            let first = text_at(d, c.1);
            let (s1, store): (MagicState, Option<u32>) = match common_type(s.vars[first]) {
                Some(MagicVariableType::ObjectRef(id)) => (s, Some(id)),
                _ => if s.counter >= u32::MAX {
                    (s, None)
                } else {
                    let id = s.counter as u32;
                    let x = MagicVariableInstance { origin, value: MagicVariableType::ObjectRef(id), range: shifted(sp, c.1) };
                    (with_var(with_new_obj(s), first, x), Some(id))
                },
            };
            match store {
                None => (s1, None),
                Some(st) => {
                    let w = walk(s1, st, c.0, c.0.len() as int, origin);
                    match w.1 {
                        None => (w.0, None),
                        Some(target) => match accessor_text(access.accessor, d) {
                            Some(name) => (w.0, Some((target, name))),
                            None => (w.0, None),
                        },
                    }
                },
            }
        },
    }
}

/// The methods of an array that change it.
pub open spec fn is_array_method(t: Seq<char>) -> bool {
    ||| t == "push"@
    ||| t == "pop"@
    ||| t == "join"@
    ||| t == "slice"@
    ||| t == "splice"@
    ||| t == "shift"@
    ||| t == "unshift"@
}

/// The type an assignment with operator `op` gives its target, and the state after.
pub open spec fn spec_assign(
    s: MagicState,
    op: TokenKind,
    right: ASTExpression,
    d: Seq<u8>,
    origin: BlobId,
    sp: Range<usize>,
) -> (MagicState, MagicVariableType)
    decreases right, 1int,
{
    if (op == TokenKind::MinusEqualsOp || op == TokenKind::StarEqualsOp) && right is Number {
        (s, MagicVariableType::Number)
    } else {
        spec_process(s, right, d, origin, sp)
    }
}

/// The type an expression gives, and the state once its assignments are recorded.
pub open spec fn spec_process(
    s: MagicState,
    e: ASTExpression,
    d: Seq<u8>,
    origin: BlobId,
    sp: Range<usize>,
) -> (MagicState, MagicVariableType)
    decreases e, 0int,
{
    match e {
        ASTExpression::Binary(b) => match b.left {
            ASTExpression::Identifier(ident) => {
                let r = spec_assign(s, b.operator, b.right, d, origin, sp);
                let x = MagicVariableInstance { origin, value: r.1, range: shifted(sp, ident.range) };
                (with_var(r.0, text_at(d, ident.range), x), r.1)
            },
            ASTExpression::Access(access) => {
                let a = spec_resolve_access(s, *access, d, origin, sp);
                match a.1 {
                    Some(p) => {
                        let r = spec_assign(a.0, b.operator, b.right, d, origin, sp);
                        let x = MagicVariableInstance { origin, value: r.1, range: shifted(sp, access.accessor.spec_range()) };
                        (with_prop(r.0, p.0 as int, p.1, x), r.1)
                    },
                    None => (a.0, MagicVariableType::Unknown),
                }
            },
            _ => {
                let l = spec_process(s, b.left, d, origin, sp);
                (spec_process(l.0, b.right, d, origin, sp).0, MagicVariableType::Unknown)
            },
        },
        ASTExpression::String(_) => (s, MagicVariableType::String),
        ASTExpression::Number(_) => (s, MagicVariableType::Number),
        ASTExpression::Boolean(_) => (s, MagicVariableType::Bool),
        ASTExpression::ArrayLit(_) => (s, MagicVariableType::Array),
        ASTExpression::Identifier(i) => (s, known(s.vars[text_at(d, i.range)])),
        ASTExpression::Access(acc) => {
            let a = spec_resolve_access(s, *acc, d, origin, sp);
            match a.1 {
                Some(p) => (a.0, known(a.0.objs[p.0 as int][p.1])),
                None => (a.0, MagicVariableType::Unknown),
            }
        },
        ASTExpression::Call(call) => {
            let s1 = match call.expression {
                ASTExpression::Access(access) => if accessor_text(access.accessor, d) matches Some(t) && is_array_method(t) {
                    match access.expression {
                        ASTExpression::Identifier(ident) => {
                            let x = MagicVariableInstance { origin, value: MagicVariableType::Array, range: shifted(sp, ident.range) };
                            with_var(s, text_at(d, ident.range), x)
                        },
                        ASTExpression::Access(inner) => {
                            let a = spec_resolve_access(s, *inner, d, origin, sp);
                            match a.1 {
                                Some(p) => {
                                    let x = MagicVariableInstance { origin, value: MagicVariableType::Array, range: shifted(sp, inner.range) };
                                    with_prop(a.0, p.0 as int, p.1, x)
                                },
                                None => a.0,
                            }
                        },
                        _ => s,
                    }
                } else {
                    s
                },
                _ => s,
            };
            (s1, MagicVariableType::Unknown)
        },
        ASTExpression::Unary(u) => (spec_process(s, u.expression, d, origin, sp).0, MagicVariableType::Unknown),
        ASTExpression::New(n) => (spec_process(s, n.expression, d, origin, sp).0, MagicVariableType::Unknown),
        ASTExpression::Ternary(t) => {
            let c = spec_process(s, t.condition, d, origin, sp);
            let l = spec_process(c.0, t.left, d, origin, sp);
            (spec_process(l.0, t.right, d, origin, sp).0, MagicVariableType::Unknown)
        },
    }
}


/// A variable assigned a string gets one more assignment, of the string type,
/// from the origin; nothing else changes, and the expression has the string
/// type.
pub proof fn law_string_assignment(s: MagicState, e: ASTExpression, d: Seq<u8>, origin: BlobId, sp: Range<usize>)
    ensures
        e matches ASTExpression::Binary(b) ==> (b.left matches ASTExpression::Identifier(i) ==> (b.right is String ==> spec_process(s, e, d, origin, sp) == (
            with_var(
                s,
                text_at(d, i.range),
                MagicVariableInstance { origin, value: MagicVariableType::String, range: shifted(sp, i.range) },
            ),
            MagicVariableType::String,
        ))),
{
    if let ASTExpression::Binary(b) = e {
        if b.right is String {
            assert(spec_process(s, b.right, d, origin, sp) == (s, MagicVariableType::String));
            assert(spec_assign(s, b.operator, b.right, d, origin, sp) == (s, MagicVariableType::String));
        }
    }
}

/// Calling a method that changes an array on a variable gives the variable one
/// more assignment, of the array type, from the origin; nothing else changes,
/// and the call's type is unknown.
pub proof fn law_array_method_call(s: MagicState, e: ASTExpression, d: Seq<u8>, origin: BlobId, sp: Range<usize>)
    ensures
        e matches ASTExpression::Call(call) ==> (call.expression matches ASTExpression::Access(access) ==> (
            access.expression matches ASTExpression::Identifier(i) ==> (accessor_text(access.accessor, d) matches Some(t)
                ==> (is_array_method(t) ==> spec_process(s, e, d, origin, sp) == (
                with_var(
                    s,
                    text_at(d, i.range),
                    MagicVariableInstance { origin, value: MagicVariableType::Array, range: shifted(sp, i.range) },
                ),
                MagicVariableType::Unknown,
            ))))),
{
}

/// The state once the first `n` expressions were gone through in order.
pub open spec fn spec_run(
    s: MagicState,
    exps: Seq<ASTExpression>,
    n: int,
    d: Seq<u8>,
    origin: BlobId,
    sp: Range<usize>,
) -> MagicState
    decreases n,
{
    if n <= 0 {
        s
    } else {
        spec_process(spec_run(s, exps, n - 1, d, origin, sp), exps[n - 1], d, origin, sp).0
    }
}

/// Whether the text names one of the methods that change an array.
pub(crate) fn is_array_method_name(s: &str) -> (r: bool)
    ensures
        r == is_array_method(s@),
{
    str_eq(s, "push") || str_eq(s, "pop") || str_eq(s, "join") || str_eq(s, "slice") || str_eq(s, "splice")
        || str_eq(s, "shift") || str_eq(s, "unshift")
}

/// Gathers the types that the javascript of one origin gives to magic variables.
pub struct MagicVariableCollector<'a> {
    pub origin: BlobId,
    pub ctx: MagicVariableCollectorContext,
    pub input: InputPresenter<'a>,
    pub start_pos: Range<usize>,
}

impl<'a> MagicVariableCollector<'a> {
    pub open spec fn len(&self) -> int {
        self.input.data@.len() as int
    }

    /// The collector keeps its origin, input and start, and its context well formed.
    pub open spec fn steps(&self, before: &Self) -> bool {
        &&& self.origin == before.origin
        &&& self.input == before.input
        &&& self.start_pos == before.start_pos
        &&& self.ctx.wf()
        &&& self.ctx.counter >= before.ctx.counter
    }

    /// A range of the javascript as a range of the whole text (additions saturate).
    fn range(&self, other: &Range<usize>) -> (r: Range<usize>)
        ensures
            r.start == (if self.start_pos.start + other.start <= usize::MAX { self.start_pos.start + other.start } else { usize::MAX as int }),
            r.end == (if r.start + other.end <= usize::MAX { r.start + other.end } else { usize::MAX as int }),
            r == shifted(self.start_pos, *other),
    {
        let start = self.start_pos.start.saturating_add(other.start);
        Range { start, end: start.saturating_add(other.end) }
    }

    /// Records an assignment of a variable.
    fn add_variable(&mut self, name: String, value: MagicVariableType, range: Range<usize>)
        requires
            old(self).ctx.wf(),
            type_valid(value, old(self).ctx.counter as int),
        ensures
            final(self).steps(old(self)),
            final(self).ctx.counter == old(self).ctx.counter,
            final(self).ctx.objects == old(self).ctx.objects,
            instances_of(final(self).ctx.variables.0@, name@) == instances_of(old(self).ctx.variables.0@, name@).push(
                MagicVariableInstance { origin: old(self).origin, value, range },
            ),
            ctx_view(final(self).ctx) == with_var(
                ctx_view(old(self).ctx),
                name@,
                MagicVariableInstance { origin: old(self).origin, value, range },
            ),
    {
        let ghost before = self.ctx.variables.0@;
        let ghost k = name@;
        let inst = MagicVariableInstance { origin: self.origin, value, range };
        self.ctx.variables.insert(name, inst);
        proof {
            lemma_object_ok_insert(before, self.ctx.variables.0@, k, inst, self.ctx.counter as int);
            assert(ctx_view(self.ctx).vars =~= with_var(ctx_view(old(self).ctx), k, inst).vars);
            assert(ctx_view(self.ctx).objs =~= ctx_view(old(self).ctx).objs);
        }
    }

    /// Records an assignment of a property of object `id`.
    fn add_property(&mut self, id: u32, name: String, value: MagicVariableType, range: Range<usize>)
        requires
            old(self).ctx.wf(),
            id < old(self).ctx.counter,
            type_valid(value, old(self).ctx.counter as int),
        ensures
            final(self).steps(old(self)),
            final(self).ctx.counter == old(self).ctx.counter,
            ctx_view(final(self).ctx) == with_prop(
                ctx_view(old(self).ctx),
                id as int,
                name@,
                MagicVariableInstance { origin: old(self).origin, value, range },
            ),
    {
        let k = id as usize;
        let mut obj = self.ctx.objects.remove(k);
        let ghost before = obj.0@;
        let ghost key = name@;
        let inst = MagicVariableInstance { origin: self.origin, value, range };
        assert(object_ok(before, self.ctx.counter as int));
        obj.insert(name, inst);
        proof {
            lemma_object_ok_insert(before, obj.0@, key, inst, self.ctx.counter as int);
        }
        self.ctx.objects.insert(k, obj);
        proof {
            assert forall|j: int| 0 <= j < self.ctx.objects@.len() implies object_ok(#[trigger] self.ctx.objects@[j].0@, self.ctx.counter as int) by {
                if j != k {
                    assert(self.ctx.objects@[j] == old(self).ctx.objects@[j]);
                }
            }
            let v0 = ctx_view(old(self).ctx);
            assert(obj_map(obj.0@) =~= v0.objs[k as int].insert(key, v0.objs[k as int][key].push(inst)));
            assert forall|j: int| 0 <= j < self.ctx.objects@.len() && j != k implies #[trigger] self.ctx.objects@[j] == old(self).ctx.objects@[j] by {}
            assert(ctx_view(self.ctx).objs =~= with_prop(v0, k as int, key, inst).objs);
            assert(ctx_view(self.ctx).vars =~= v0.vars);
        }
    }

    /// The common type of the variables named `name` in object `id`, or of the top-level variable where `id` is none.
    fn common_of(&self, id: Option<u32>, name: &str) -> (r: Option<MagicVariableType>)
        requires
            self.ctx.wf(),
            id matches Some(i) ==> i < self.ctx.counter,
        ensures
            r matches Some(t) ==> type_valid(t, self.ctx.counter as int),
            id.is_none() ==> r == (match entry_index(self.ctx.variables.0@, name@) {
                Some(k) => common_type(self.ctx.variables.0@[k].1.0@),
                None => None,
            }),
            r == match id {
                Some(i) => common_type(ctx_view(self.ctx).objs[i as int][name@]),
                None => common_type(ctx_view(self.ctx).vars[name@]),
            },
    {
        let obj = match id {
            Some(i) => &self.ctx.objects[i as usize],
            None => &self.ctx.variables,
        };
        proof {
            lemma_entry_index(obj.0@, name@);
        }
        match obj.find(name) {
            Some(k) => {
                let r = obj.0[k].1.get_common_type();
                proof {
                    if r.is_some() {
                        assert(instances_of(obj.0@, name@) == obj.0@[k as int].1.0@);
                        assert(type_valid(instances_of(obj.0@, name@)[0].value, self.ctx.counter as int));
                    }
                }
                r
            },
            None => {
                assert(common_type(Seq::<MagicVariableInstance>::empty()).is_none());
                None
            },
        }
    }

    /// The type an assignment with the operator gives its target.
    fn resolve_binary(&mut self, op: &TokenKind, right: &ASTExpression) -> (t: MagicVariableType)
        requires
            old(self).ctx.wf(),
            wf_expr(*right, old(self).len()),
        ensures
            final(self).steps(old(self)),
            type_valid(t, final(self).ctx.counter as int),
            (ctx_view(final(self).ctx), t) == spec_assign(ctx_view(old(self).ctx), *op, *right, old(self).input.data@, old(self).origin, old(self).start_pos),
        decreases right, 1int,
    {
        if (*op == TokenKind::MinusEqualsOp || *op == TokenKind::StarEqualsOp) && matches!(right, ASTExpression::Number(_)) {
            MagicVariableType::Number
        } else {
            self.process_exp(right)
        }
    }

    /// The text an accessor spells: a name, a string or a number.
    fn get_string_from_accessor(&self, accessor: &ASTAccessContent) -> (r: Option<String>)
        requires
            accessor matches ASTAccessContent::Identifier(i) ==> i.range.start <= i.range.end <= self.len(),
            accessor matches ASTAccessContent::Expression(x) ==> wf_expr(*x, self.len()),
        ensures
            accessor matches ASTAccessContent::Identifier(i) ==> r matches Some(s) && s@ == text_at(
                self.input.data@,
                i.range,
            ),
            match r {
                Some(s) => accessor_text(*accessor, self.input.data@) == Some(s@),
                None => accessor_text(*accessor, self.input.data@).is_none(),
            },
    {
        match accessor {
            ASTAccessContent::Identifier(ident) => Some(self.input.from_range(&ident.range)),
            ASTAccessContent::Expression(exp) => match exp {
                ASTExpression::String(str) => Some(self.input.from_range(&str.range)),
                ASTExpression::Number(num) => Some(self.input.from_range(&num.range)),
                _ => None,
            },
        }
    }

    /// Finds the object a chain of property accesses ends in, making the
    /// objects on the way that do not exist yet; gives its number and the
    /// name of the last property.
    fn resolve_access(&mut self, access: &ASTAccess) -> (r: Option<(u32, String)>)
        requires
            old(self).ctx.wf(),
            wf_expr(ASTExpression::Access(Box::new(*access)), old(self).len()),
        ensures
            final(self).steps(old(self)),
            r matches Some(p) ==> p.0 < final(self).ctx.counter,
            (ctx_view(final(self).ctx), match r {
                Some(p) => Some((p.0, p.1@)),
                None => None,
            }) == spec_resolve_access(ctx_view(old(self).ctx), *access, old(self).input.data@, old(self).origin, old(self).start_pos),
    {
        let ghost d = self.input.data@;
        let ghost s0 = ctx_view(self.ctx);
        let mut result: Vec<(String, Range<usize>)> = Vec::new();
        let mut left = &access.expression;
        loop
            invariant
                wf_expr(*left, self.len()),
                *self == *old(self),
                self.ctx.wf(),
                d == self.input.data@,
                chain_names(access.expression, d) == match chain_names(*left, d) {
                    Some(p) => Some((names_of(result@) + p.0, p.1)),
                    None => None,
                },
            ensures
                !((*left) is Access),
            decreases *left,
        {
            match left {
                ASTExpression::Access(acc) => {
                    match self.get_string_from_accessor(&acc.accessor) {
                        Some(val) => {
                            let ghost before = result@;
                            result.push((val, acc.range));
                            proof {
                                assert(names_of(result@) =~= names_of(before).push((val@, acc.range)));
                                match chain_names(acc.expression, d) {
                                    Some(p) => {
                                        assert(names_of(before) + (seq![(val@, acc.range)] + p.0) =~= names_of(result@) + p.0);
                                    },
                                    None => {},
                                }
                            }
                        },
                        None => { return None; },
                    }
                    left = &acc.expression;
                },
                _ => { break; },
            }
        }
        let (first_obj, first_range) = match left {
            ASTExpression::Identifier(ident) => (self.input.from_range(&ident.range), ident.range),
            _ => { return None; },
        };
        let ghost names = names_of(result@);
        proof {
            assert(names + Seq::<(Seq<char>, Range<usize>)>::empty() =~= names);
        }
        let mut store = match self.common_of(None, first_obj.as_str()) {
            Some(MagicVariableType::ObjectRef(id)) => id,
            _ => {
                if self.ctx.counter == u32::MAX {
                    return None;
                }
                let obj_ref = self.ctx.create_obj();
                let range = self.range(&first_range);
                self.add_variable(first_obj, MagicVariableType::ObjectRef(obj_ref), range);
                obj_ref
            },
        };
        let ghost s1 = ctx_view(self.ctx);
        let ghost st0 = store;
        proof {
            let c = chain_names(access.expression, d).unwrap();
            assert(c.0 == names && c.1 == first_range);
            let w = walk(s1, st0, names, names.len() as int, self.origin);
            assert(spec_resolve_access(s0, *access, d, self.origin, self.start_pos) == match w.1 {
                None => (w.0, None),
                Some(target) => match accessor_text(access.accessor, d) {
                    Some(name) => (w.0, Some((target, name))),
                    None => (w.0, None),
                },
            });
        }
        let mut i: usize = result.len();
        while i > 0
            invariant
                i <= result@.len(),
                names == names_of(result@),
                d == self.input.data@,
                self.steps(old(self)),
                store < self.ctx.counter,
                walk(s1, st0, names, names.len() as int, self.origin) == walk(ctx_view(self.ctx), store, names, i as int, self.origin),
                s0 == ctx_view(old(self).ctx),
                spec_resolve_access(s0, *access, d, self.origin, self.start_pos) == match walk(s1, st0, names, names.len() as int, self.origin).1 {
                    None => (walk(s1, st0, names, names.len() as int, self.origin).0, None),
                    Some(target) => match accessor_text(access.accessor, d) {
                        Some(name) => (walk(s1, st0, names, names.len() as int, self.origin).0, Some((target, name))),
                        None => (walk(s1, st0, names, names.len() as int, self.origin).0, None),
                    },
                },
            decreases i,
        {
            i = i - 1;
            let found = self.ctx.objects[store as usize].find(result[i].0.as_str());
            match found {
                Some(_) => {
                    match self.common_of(Some(store), result[i].0.as_str()) {
                        Some(MagicVariableType::ObjectRef(id)) => {
                            store = id;
                        },
                        _ => {
                            if self.ctx.counter == u32::MAX {
                                proof {
                                    assert(names[i as int] == (result@[i as int].0@, result@[i as int].1));
                                    assert(walk(ctx_view(self.ctx), store, names, i as int + 1, self.origin) == (ctx_view(self.ctx), None::<u32>));
                                }
                                return None;
                            }
                            let new_obj_id = self.ctx.create_obj();
                            let name = result[i].0.clone();
                            let range = result[i].1;
                            self.add_property(store, name, MagicVariableType::ObjectRef(new_obj_id), range);
                            store = new_obj_id;
                        },
                    }
                },
                None => {
                    proof {
                        assert(names[i as int] == (result@[i as int].0@, result@[i as int].1));
                        assert(ctx_view(self.ctx).objs[store as int] == obj_map(self.ctx.objects@[store as int].0@));
                        assert(ctx_view(self.ctx).objs[store as int][names[i as int].0] == Seq::<MagicVariableInstance>::empty());
                        assert(common_type(Seq::<MagicVariableInstance>::empty()).is_none());
                    }
                    if self.ctx.counter == u32::MAX {
                        proof {
                            assert(walk(ctx_view(self.ctx), store, names, i as int + 1, self.origin) == (ctx_view(self.ctx), None::<u32>));
                        }
                        return None;
                    }
                    let new_obj_id = self.ctx.create_obj();
                    let name = result[i].0.clone();
                    let range = result[i].1;
                    self.add_property(store, name, MagicVariableType::ObjectRef(new_obj_id), range);
                    store = new_obj_id;
                },
            }
        }
        match self.get_string_from_accessor(&access.accessor) {
            Some(name) => Some((store, name)),
            None => None,
        }
    }

    /// Whether an accessor names one of the methods that change an array.
    fn names_array_method(&self, accessor: &ASTAccessContent) -> (r: bool)
        requires
            accessor matches ASTAccessContent::Identifier(i) ==> i.range.start <= i.range.end <= self.len(),
            accessor matches ASTAccessContent::Expression(x) ==> wf_expr(*x, self.len()),
        ensures
            r == (accessor_text(*accessor, self.input.data@) matches Some(t) && is_array_method(t)),
    {
        match self.get_string_from_accessor(accessor) {
            Some(s) => is_array_method_name(s.as_str()),
            None => false,
        }
    }

    /// The type of value an expression gives; records the assignments it makes.
    fn process_exp(&mut self, exp: &ASTExpression) -> (t: MagicVariableType)
        requires
            old(self).ctx.wf(),
            wf_expr(*exp, old(self).len()),
        ensures
            final(self).steps(old(self)),
            type_valid(t, final(self).ctx.counter as int),
            exp is String ==> t == MagicVariableType::String,
            exp is Number ==> t == MagicVariableType::Number,
            exp is Boolean ==> t == MagicVariableType::Bool,
            exp is ArrayLit ==> t == MagicVariableType::Array,
            exp is Unary || exp is New || exp is Ternary || exp is Call ==> t == MagicVariableType::Unknown,
            exp matches ASTExpression::Identifier(i) ==> t == (match entry_index(
                old(self).ctx.variables.0@,
                text_at(old(self).input.data@, i.range),
            ) {
                Some(k) => match common_type(old(self).ctx.variables.0@[k].1.0@) {
                    Some(c) => c,
                    None => MagicVariableType::Unknown,
                },
                None => MagicVariableType::Unknown,
            }),
            (ctx_view(final(self).ctx), t) == spec_process(ctx_view(old(self).ctx), *exp, old(self).input.data@, old(self).origin, old(self).start_pos),
        decreases exp, 0int,
    {
        match exp {
            ASTExpression::Binary(binary) => {
                assert(wf_expr(binary.left, self.len()));
                match &binary.left {
                    ASTExpression::Identifier(ident) => {
                        let left_name = self.input.from_range(&ident.range);
                        let var_type = self.resolve_binary(&binary.operator, &binary.right);
                        let range = self.range(&ident.range);
                        self.add_variable(left_name, var_type, range);
                        var_type
                    },
                    ASTExpression::Access(access) => {
                        match self.resolve_access(access) {
                            Some((obj_id, var_name)) => {
                                let right_type = self.resolve_binary(&binary.operator, &binary.right);
                                proof {
                                    if access.accessor is Expression {
                                        assert(wf_expr(access.accessor->Expression_0, self.len()));
                                    }
                                }
                                let r = *access.accessor.range();
                                let range = self.range(&r);
                                self.add_property(obj_id, var_name, right_type, range);
                                right_type
                            },
                            None => MagicVariableType::Unknown,
                        }
                    },
                    _ => {
                        self.process_exp(&binary.left);
                        self.process_exp(&binary.right);
                        MagicVariableType::Unknown
                    },
                }
            },
            ASTExpression::String(_) => MagicVariableType::String,
            ASTExpression::Number(_) => MagicVariableType::Number,
            ASTExpression::Boolean(_) => MagicVariableType::Bool,
            ASTExpression::ArrayLit(_) => MagicVariableType::Array,
            ASTExpression::Identifier(ident) => {
                let name = self.input.from_range(&ident.range);
                match self.common_of(None, name.as_str()) {
                    Some(t) => t,
                    None => MagicVariableType::Unknown,
                }
            },
            ASTExpression::Access(acc) => {
                match self.resolve_access(acc) {
                    Some((store_id, name)) => match self.common_of(Some(store_id), name.as_str()) {
                        Some(t) => t,
                        None => MagicVariableType::Unknown,
                    },
                    None => MagicVariableType::Unknown,
                }
            },
            ASTExpression::Call(call) => {
                if let ASTExpression::Access(access) = &call.expression {
                    assert(wf_expr(call.expression, self.len()));
                    assert(wf_expr(access.expression, self.len()));
                    if self.names_array_method(&access.accessor) {
                        match &access.expression {
                            ASTExpression::Identifier(ident) => {
                                let ident_text = self.input.from_range(&ident.range);
                                let range = self.range(&ident.range);
                                self.add_variable(ident_text, MagicVariableType::Array, range);
                            },
                            ASTExpression::Access(inner) => {
                                if let Some((obj_id, name)) = self.resolve_access(inner) {
                                    let range = self.range(&inner.range);
                                    self.add_property(obj_id, name, MagicVariableType::Array, range);
                                }
                            },
                            _ => {},
                        }
                    }
                }
                MagicVariableType::Unknown
            },
            ASTExpression::Unary(unary) => {
                self.process_exp(&unary.expression);
                MagicVariableType::Unknown
            },
            ASTExpression::New(new) => {
                self.process_exp(&new.expression);
                MagicVariableType::Unknown
            },
            ASTExpression::Ternary(ternary) => {
                self.process_exp(&ternary.condition);
                self.process_exp(&ternary.left);
                self.process_exp(&ternary.right);
                MagicVariableType::Unknown
            },
        }
    }

    /// Gathers the types of all the expressions; gives back the input and the context.
    pub fn run(self, exp: Vec<ASTExpression>) -> (r: (InputPresenter<'a>, MagicVariableCollectorContext))
        requires
            self.ctx.wf(),
            forall|i: int| 0 <= i < exp@.len() ==> wf_expr(#[trigger] exp@[i], self.input.data@.len() as int),
        ensures
            r.0 == self.input,
            r.1.wf(),
            r.1.counter >= self.ctx.counter,
            ctx_view(r.1) == spec_run(ctx_view(self.ctx), exp@, exp@.len() as int, self.input.data@, self.origin, self.start_pos),
    {
        let mut collector = self;
        let ghost start = collector;
        let mut i: usize = 0;
        while i < exp.len()
            invariant
                collector.steps(&start),
                i <= exp@.len(),
                ctx_view(collector.ctx) == spec_run(ctx_view(start.ctx), exp@, i as int, start.input.data@, start.origin, start.start_pos),
                forall|j: int| 0 <= j < exp@.len() ==> wf_expr(#[trigger] exp@[j], start.input.data@.len() as int),
            decreases exp@.len() - i,
        {
            collector.process_exp(&exp[i]);
            i = i + 1;
        }
        (collector.input, collector.ctx)
    }
}

} // verus!
