use vstd::prelude::*;
use vstd::string::*;
use crate::compiler::visitors::variable_collector::text_at;
use crate::compiler::visitors::variable_collector::variable::{entry_index, lemma_entry_index, lemma_entry_index_at};
use crate::diagnostics::diagnostic::{Diagnostic, DiagnosticMessage};
use crate::diagnostics::location::Range;
use crate::js_parser::input::InputPresenter;
use crate::js_parser::parser::ast::{ASTAccess, ASTAccessContent, ASTExpression, ExprView, expr_view, expr_views, lemma_expr_views, wf_expr};
use crate::js_parser::tokenizer::TokenKind;
use crate::parser::ast::model::str_eq;
use crate::compiler::visitors::magic_vars::{accessor_text, chain_names, names_of};

verus! {

/// The diagnostics of gathering magic variables.
pub struct Diagnostics;

impl Diagnostics {
    pub fn must_be_obj() -> (d: DiagnosticMessage)
        ensures
            d.code@ == "C2001"@,
            d.message@ == "Variable $ is a $, not an object."@,
    {
        DiagnosticMessage { code: "C2001", message: "Variable $ is a $, not an object." }
    }
}

/// What a magic variable holds, as far as the story's javascript tells.
#[derive(Clone, Copy, Debug, PartialEq, Eq, Structural)]
pub enum MagicVariableType {
    String,
    Number,
    Bool,
    Array,
    ObjectRef(u32),
    Unknown,
}

pub open spec fn type_id(t: MagicVariableType) -> u8 {
    match t {
        MagicVariableType::String => 0,
        MagicVariableType::Number => 1,
        MagicVariableType::Bool => 2,
        MagicVariableType::Array => 3,
        MagicVariableType::ObjectRef(_) => 4,
        MagicVariableType::Unknown => 5,
    }
}

impl MagicVariableType {
    /// The number that stands for the kind of value.
    pub fn get_id(&self) -> (r: u8)
        ensures
            r == type_id(*self),
    {
        match self {
            MagicVariableType::String => 0,
            MagicVariableType::Number => 1,
            MagicVariableType::Bool => 2,
            MagicVariableType::Array => 3,
            MagicVariableType::ObjectRef(_) => 4,
            MagicVariableType::Unknown => 5,
        }
    }

    /// The name of the kind of value: `string`, `boolean`, `number`, `array`, `object` or `unknown`.
    pub fn as_text(&self) -> (s: &'static str)
        ensures
            s@ == (match *self {
                MagicVariableType::String => "string"@,
                MagicVariableType::Bool => "boolean"@,
                MagicVariableType::Number => "number"@,
                MagicVariableType::Array => "array"@,
                MagicVariableType::ObjectRef(_) => "object"@,
                MagicVariableType::Unknown => "unknown"@,
            }),
    {
        match self {
            MagicVariableType::String => "string",
            MagicVariableType::Bool => "boolean",
            MagicVariableType::Number => "number",
            MagicVariableType::Array => "array",
            MagicVariableType::ObjectRef(_) => "object",
            MagicVariableType::Unknown => "unknown",
        }
    }
}

/// Values of an object by property name; each name appears once.
#[derive(Debug)]
pub struct MagicObject(pub Vec<(String, MagicVariableType)>);

/// The value under `key`.
pub open spec fn object_get(o: Seq<(String, MagicVariableType)>, key: Seq<char>) -> Option<MagicVariableType> {
    match entry_index(o, key) {
        Some(i) => Some(o[i].1),
        None => None,
    }
}

impl MagicObject {
    pub fn new() -> (o: MagicObject)
        ensures
            o.0@.len() == 0,
    {
        MagicObject(Vec::new())
    }

    /// The value under `key`.
    pub fn get(&self, key: &str) -> (r: Option<MagicVariableType>)
        ensures
            r == object_get(self.0@, key@),
    {
        proof {
            lemma_entry_index(self.0@, key@);
        }
        let mut i: usize = 0;
        while i < self.0.len()
            invariant
                0 <= i <= self.0@.len(),
                forall|j: int| 0 <= j < i ==> self.0@[j].0@ != key@,
            decreases self.0@.len() - i,
        {
            if str_eq(self.0[i].0.as_str(), key) {
                proof {
                    lemma_entry_index_at(self.0@, key@, i as int);
                }
                return Some(self.0[i].1);
            }
            i = i + 1;
        }
        None
    }

    /// Sets the value under `key`.
    pub fn insert(&mut self, key: String, value: MagicVariableType)
        ensures
            object_get(final(self).0@, key@) == Some(value),
            forall|k: Seq<char>| k != key@ ==> #[trigger] object_get(final(self).0@, k) == object_get(old(self).0@, k),
            value_map(final(self).0@) == value_map(old(self).0@).insert(key@, Some(value)),
            forall|j: int| 0 <= j < final(self).0@.len() ==> #[trigger] final(self).0@[j].1 == value || (j < old(self).0@.len()
                && final(self).0@[j] == old(self).0@[j]),
    {
        let ghost old_entries = self.0@;
        proof {
            lemma_entry_index(old_entries, key@);
        }
        let mut i: usize = 0;
        while i < self.0.len()
            invariant
                self.0@ == old_entries,
                old_entries == old(self).0@,
                0 <= i <= self.0@.len(),
                forall|j: int| 0 <= j < i ==> self.0@[j].0@ != key@,
            decreases self.0@.len() - i,
        {
            if str_eq(self.0[i].0.as_str(), key.as_str()) {
                let ghost k = key@;
                self.0.set(i, (key, value));
                proof {
                    assert forall|j: int| 0 <= j < self.0@.len() implies #[trigger] self.0@[j].0@ == old_entries[j].0@ by {
                        if j != i {
                            assert(self.0@[j] == old_entries[j]);
                        }
                    }
                    lemma_entry_index_at(self.0@, k, i as int);
                    assert forall|kk: Seq<char>| kk != k implies #[trigger] object_get(self.0@, kk) == object_get(
                        old_entries,
                        kk,
                    ) by {
                        lemma_same_keys(self.0@, old_entries, kk);
                        lemma_entry_index(old_entries, kk);
                        match entry_index(old_entries, kk) {
                            Some(j) => {
                                assert(j != i);
                                assert(self.0@[j] == old_entries[j]);
                            },
                            None => {},
                        }
                    }
                    assert(value_map(self.0@) =~= value_map(old_entries).insert(k, Some(value)));
                }
                return;
            }
            i = i + 1;
        }
        let ghost k = key@;
        self.0.push((key, value));
        proof {
            lemma_entry_index_at(self.0@, k, old_entries.len() as int);
            assert(self.0@.drop_last() =~= old_entries);
            assert forall|kk: Seq<char>| kk != k implies #[trigger] object_get(self.0@, kk) == object_get(
                old_entries,
                kk,
            ) by {
                lemma_entry_index(old_entries, kk);
            }
            assert(value_map(self.0@) =~= value_map(old_entries).insert(k, Some(value)));
        }
    }
}

pub proof fn lemma_same_keys(a: Seq<(String, MagicVariableType)>, b: Seq<(String, MagicVariableType)>, key: Seq<char>)
    requires
        a.len() == b.len(),
        forall|i: int| 0 <= i < a.len() ==> #[trigger] a[i].0@ == b[i].0@,
    ensures
        entry_index(a, key) == entry_index(b, key),
    decreases a.len(),
{
    if a.len() > 0 {
        lemma_same_keys(a.drop_last(), b.drop_last(), key);
    }
}

/// The magic variables of a story and the objects they refer to; object `i`
/// is the `i`th one made.
#[derive(Debug)]
pub struct MagicVariableCollectorContext {
    pub variables: MagicObject,
    pub objects: Vec<MagicObject>,
    pub diagnostics: Vec<Diagnostic>,
    pub counter: u32,
}

/// Object references name objects that exist.
pub open spec fn type_valid(t: MagicVariableType, n: int) -> bool {
    t matches MagicVariableType::ObjectRef(id) ==> id < n
}

/// Every value the object holds is a valid type.
pub open spec fn object_valid(o: Seq<(String, MagicVariableType)>, n: int) -> bool {
    forall|i: int| 0 <= i < o.len() ==> type_valid(#[trigger] o[i].1, n)
}

impl MagicVariableCollectorContext {
    /// There is an object for each number handed out, and every reference
    /// names one of them.
    pub open spec fn wf(&self) -> bool {
        &&& self.objects@.len() == self.counter
        &&& object_valid(self.variables.0@, self.counter as int)
        &&& forall|i: int| 0 <= i < self.objects@.len() ==> object_valid(#[trigger] self.objects@[i].0@, self.counter as int)
    }

    pub fn new() -> (c: Self)
        ensures
            c.wf(),
            c.counter == 0,
            c.variables.0@.len() == 0,
            c.diagnostics@.len() == 0,
    {
        MagicVariableCollectorContext {
            variables: MagicObject::new(),
            objects: Vec::new(),
            diagnostics: Vec::new(),
            counter: 0,
        }
    }

    /// Checks that there is an object for each number handed out and that
    /// every stored reference names one of them.
    pub fn is_valid(&self) -> (r: bool)
        ensures
            r == self.wf(),
    {
        if self.objects.len() != self.counter as usize {
            return false;
        }
        if !entries_valid(&self.variables, self.counter) {
            return false;
        }
        let mut i: usize = 0;
        while i < self.objects.len()
            invariant
                0 <= i <= self.objects@.len(),
                forall|j: int| 0 <= j < i ==> object_valid(#[trigger] self.objects@[j].0@, self.counter as int),
            decreases self.objects@.len() - i,
        {
            if !entries_valid(&self.objects[i], self.counter) {
                return false;
            }
            i = i + 1;
        }
        true
    }

    /// Makes a new empty object; gives its number.
    pub fn create_obj(&mut self) -> (id: u32)
        requires
            old(self).wf(),
            old(self).counter < u32::MAX,
        ensures
            final(self).wf(),
            id == old(self).counter,
            final(self).counter == old(self).counter + 1,
            final(self).objects@ == old(self).objects@.push(final(self).objects@.last()),
            final(self).objects@.last().0@.len() == 0,
            final(self).variables == old(self).variables,
            final(self).diagnostics == old(self).diagnostics,
            forall|c: Seq<(String, u8)>| #[trigger] gather_view(*final(self), c) == gs_new_obj(gather_view(*old(self), c)),
    {
        let id = self.counter;
        self.counter = self.counter + 1;
        self.objects.push(MagicObject::new());
        proof {
            lemma_valid_grows(self.variables.0@, old(self).counter as int, self.counter as int);
            assert forall|i: int| 0 <= i < self.objects@.len() implies object_valid(#[trigger] self.objects@[i].0@, self.counter as int) by {
                if i < self.objects@.len() - 1 {
                    assert(object_valid(old(self).objects@[i].0@, old(self).counter as int));
                    lemma_valid_grows(self.objects@[i].0@, old(self).counter as int, self.counter as int);
                } else {
                    assert forall|k: Seq<char>| (#[trigger] object_get(self.objects@[i].0@, k) matches Some(t) ==> type_valid(t, self.counter as int)) by {
                        assert(entry_index(self.objects@[i].0@, k).is_none());
                    }
                }
            }
            let n = self.objects@.len() - 1;
            assert(value_map(self.objects@[n].0@) =~= Map::new(|k: Seq<char>| true, |k: Seq<char>| None::<MagicVariableType>)) by {
                assert forall|k: Seq<char>| true implies entry_index(#[trigger] self.objects@[n].0@, k).is_none() by {}
            }
            assert forall|c: Seq<(String, u8)>| #[trigger] gather_view(*self, c) == gs_new_obj(gather_view(*old(self), c)) by {
                assert(gather_view(*self, c).objs =~= gs_new_obj(gather_view(*old(self), c)).objs);
            }
        }
        id
    }

    /// The object a reference names.
    pub fn get_obj(&self, typ: &MagicVariableType) -> (r: Option<&MagicObject>)
        requires
            self.wf(),
        ensures
            typ matches MagicVariableType::ObjectRef(id) ==> (if id < self.counter {
                r == Some(&self.objects@[id as int])
            } else {
                r.is_none()
            }),
            !(typ is ObjectRef) ==> r.is_none(),
    {
        match typ {
            MagicVariableType::ObjectRef(id) => {
                if (*id as usize) < self.objects.len() {
                    Some(&self.objects[*id as usize])
                } else {
                    None
                }
            },
            _ => None,
        }
    }

    /// The number of the object a variable refers to.
    pub fn get_obj_id_from_name(&self, name: &str) -> (r: Option<u32>)
        ensures
            r == (match object_get(self.variables.0@, name@) {
                Some(MagicVariableType::ObjectRef(id)) => Some(id),
                _ => None,
            }),
    {
        match self.variables.get(name) {
            Some(MagicVariableType::ObjectRef(id)) => Some(id),
            _ => None,
        }
    }
}

/// Whether every entry of an object holds a valid type.
fn entries_valid(o: &MagicObject, n: u32) -> (r: bool)
    ensures
        r == object_valid(o.0@, n as int),
{
    let mut i: usize = 0;
    while i < o.0.len()
        invariant
            0 <= i <= o.0@.len(),
            forall|j: int| 0 <= j < i ==> type_valid(#[trigger] o.0@[j].1, n as int),
        decreases o.0@.len() - i,
    {
        match o.0[i].1 {
            MagicVariableType::ObjectRef(id) => {
                if id >= n {
                    return false;
                }
            },
            _ => {},
        }
        i = i + 1;
    }
    proof {
        assert forall|k: Seq<char>| (#[trigger] object_get(o.0@, k) matches Some(t) ==> type_valid(t, n as int)) by {
            lemma_entry_index(o.0@, k);
        }
    }
    true
}

/// Where the target of an assignment lives: a variable, or a property of an object.
#[derive(Clone, Debug)]
pub enum ResolveChainResult {
    Top(String),
    Nested(u32, String),
    Unresolved,
}

impl ResolveChainResult {
    /// The type stored where the target lives.
    pub fn get(&self, ctx: &MagicVariableCollectorContext) -> (r: Option<MagicVariableType>)
        requires
            ctx.wf(),
        ensures
            self matches ResolveChainResult::Top(name) ==> r == object_get(ctx.variables.0@, name@),
            self matches ResolveChainResult::Nested(id, name) ==> r == (if id < ctx.counter {
                object_get(ctx.objects@[id as int].0@, name@)
            } else {
                None
            }),
            self is Unresolved ==> r.is_none(),
            r matches Some(t) ==> type_valid(t, ctx.counter as int),
            forall|c: Seq<(String, u8)>| r == gs_get(#[trigger] gather_view(*ctx, c), target_view(*self)),
    {
        match self {
            ResolveChainResult::Top(name) => {
                let r = ctx.variables.get(name.as_str());
                proof {
                    lemma_object_get_valid(ctx.variables.0@, name@, ctx.counter as int);
                }
                r
            },
            ResolveChainResult::Nested(id, name) => {
                if (*id as usize) < ctx.objects.len() {
                    let r = ctx.objects[*id as usize].get(name.as_str());
                    proof {
                        lemma_object_get_valid(ctx.objects@[*id as int].0@, name@, ctx.counter as int);
                    }
                    r
                } else {
                    None
                }
            },
            ResolveChainResult::Unresolved => None,
        }
    }

    /// Where the target lives: the store (`None` for the top-level
    /// variables, `Some(id)` for the object `id`) and the name in it; `None`
    /// where the target is unresolved or its object does not exist.
    pub fn get_store<'a>(&'a self, ctx: &MagicVariableCollectorContext) -> (r: Option<(Option<u32>, &'a String)>)
        ensures
            self matches ResolveChainResult::Top(name) ==> (r matches Some(p) && p.0.is_none() && *p.1 == name),
            self matches ResolveChainResult::Nested(id, name) ==> ((*id as int) < ctx.objects@.len() <==> r is Some),
            self matches ResolveChainResult::Nested(id, name) ==> (r matches Some(p) ==> p.0 == Some(*id) && *p.1 == name),
            self is Unresolved ==> r.is_none(),
    {
        match self {
            ResolveChainResult::Top(name) => Some((None, name)),
            ResolveChainResult::Nested(id, name) => {
                if (*id as usize) < ctx.objects.len() {
                    Some((Some(*id), name))
                } else {
                    None
                }
            },
            ResolveChainResult::Unresolved => None,
        }
    }

    /// Stores a type where the target lives.
    pub fn set(&self, ctx: &mut MagicVariableCollectorContext, value: MagicVariableType)
        requires
            old(ctx).wf(),
            type_valid(value, old(ctx).counter as int),
        ensures
            final(ctx).wf(),
            final(ctx).counter == old(ctx).counter,
            self matches ResolveChainResult::Top(name) ==> object_get(final(ctx).variables.0@, name@) == Some(value),
            self matches ResolveChainResult::Nested(id, name) ==> id < old(ctx).counter ==> object_get(
                final(ctx).objects@[id as int].0@,
                name@,
            ) == Some(value),
            final(ctx).diagnostics == old(ctx).diagnostics,
            forall|c: Seq<(String, u8)>| #[trigger] gather_view(*final(ctx), c) == gs_set(gather_view(*old(ctx), c), target_view(*self), value),
    {
        match self {
            ResolveChainResult::Top(name) => {
                let ghost before = ctx.variables.0@;
                ctx.variables.insert(name.clone(), value);
                proof {
                    lemma_insert_valid(before, ctx.variables.0@, value, ctx.counter as int);
                    assert forall|c: Seq<(String, u8)>| #[trigger] gather_view(*ctx, c) == gs_set(gather_view(*old(ctx), c), target_view(*self), value) by {
                        assert(gather_view(*ctx, c).objs =~= gather_view(*old(ctx), c).objs);
                    }
                }
            },
            ResolveChainResult::Nested(id, name) => {
                if (*id as usize) < ctx.objects.len() {
                    let k = *id as usize;
                    let mut obj = ctx.objects.remove(k);
                    let ghost before = obj.0@;
                    obj.insert(name.clone(), value);
                    proof {
                        lemma_insert_valid(before, obj.0@, value, ctx.counter as int);
                    }
                    ctx.objects.insert(k, obj);
                    proof {
                        assert forall|i: int| 0 <= i < ctx.objects@.len() implies object_valid(#[trigger] ctx.objects@[i].0@, ctx.counter as int) by {
                            if i != k {
                                assert(ctx.objects@[i] == old(ctx).objects@[i]);
                            }
                        }
                        assert forall|c: Seq<(String, u8)>| #[trigger] gather_view(*ctx, c) == gs_set(gather_view(*old(ctx), c), target_view(*self), value) by {
                            let g0 = gather_view(*old(ctx), c);
                            assert forall|i: int| 0 <= i < ctx.objects@.len() && i != k implies #[trigger] ctx.objects@[i] == old(ctx).objects@[i] by {}
                            assert(gather_view(*ctx, c).objs =~= g0.objs.update(k as int, g0.objs[k as int].insert(name@, Some(value))));
                        }
                    }
                } else {
                    assert forall|c: Seq<(String, u8)>| #[trigger] gather_view(*ctx, c) == gs_set(gather_view(*old(ctx), c), target_view(*self), value) by {}
                }
            },
            ResolveChainResult::Unresolved => {},
        }
    }
}

pub proof fn lemma_object_get_valid(o: Seq<(String, MagicVariableType)>, key: Seq<char>, n: int)
    requires
        object_valid(o, n),
    ensures
        object_get(o, key) matches Some(t) ==> type_valid(t, n),
{
    lemma_entry_index(o, key);
}

/// Setting a valid type keeps an object valid.
pub proof fn lemma_insert_valid(
    before: Seq<(String, MagicVariableType)>,
    after: Seq<(String, MagicVariableType)>,
    value: MagicVariableType,
    n: int,
)
    requires
        object_valid(before, n),
        type_valid(value, n),
        forall|j: int| 0 <= j < after.len() ==> #[trigger] after[j].1 == value || (j < before.len() && after[j] == before[j]),
    ensures
        object_valid(after, n),
{
    assert forall|j: int| 0 <= j < after.len() implies type_valid(#[trigger] after[j].1, n) by {
        if after[j].1 != value {
            assert(type_valid(before[j].1, n));
        }
    }
}

/// A valid object stays valid when more objects are made.
pub proof fn lemma_valid_grows(o: Seq<(String, MagicVariableType)>, n: int, m: int)
    requires
        object_valid(o, n),
        n <= m,
    ensures
        object_valid(o, m),
{
    assert forall|i: int| 0 <= i < o.len() implies type_valid(#[trigger] o[i].1, m) by {
        assert(type_valid(o[i].1, n));
    }
}


/// The value under each name of an object; none where the name has none.
pub open spec fn value_map(o: Seq<(String, MagicVariableType)>) -> Map<Seq<char>, Option<MagicVariableType>> {
    Map::new(|k: Seq<char>| true, |k: Seq<char>| object_get(o, k))
}

/// What a collector holds, as plain values: the variables, the objects, the
/// counter of objects made, and the top-level assignments gathered.
#[verifier::ext_equal]
pub struct GatherState {
    pub vars: Map<Seq<char>, Option<MagicVariableType>>,
    pub objs: Seq<Map<Seq<char>, Option<MagicVariableType>>>,
    pub counter: nat,
    pub collected: Seq<(Seq<char>, u8)>,
}

pub open spec fn gather_view(ctx: MagicVariableCollectorContext, collected: Seq<(String, u8)>) -> GatherState {
    GatherState {
        vars: value_map(ctx.variables.0@),
        objs: Seq::new(ctx.objects@.len(), |i: int| value_map(ctx.objects@[i].0@)),
        counter: ctx.counter as nat,
        collected: Seq::new(collected.len(), |i: int| (collected[i].0@, collected[i].1)),
    }
}

/// Where an assignment's target lives, as plain values: none where it could
/// not be found, a variable's name, or an object's number and a property name.
pub open spec fn target_view(r: ResolveChainResult) -> Option<(Option<u32>, Seq<char>)> {
    match r {
        ResolveChainResult::Top(name) => Some((None, name@)),
        ResolveChainResult::Nested(id, name) => Some((Some(id), name@)),
        ResolveChainResult::Unresolved => None,
    }
}

/// The state once a new empty object was made; its number is the old counter.
pub open spec fn gs_new_obj(s: GatherState) -> GatherState {
    GatherState {
        vars: s.vars,
        objs: s.objs.push(Map::new(|k: Seq<char>| true, |k: Seq<char>| None::<MagicVariableType>)),
        counter: s.counter + 1,
        collected: s.collected,
    }
}

/// The state once `value` was stored where `target` lives.
pub open spec fn gs_set(s: GatherState, target: Option<(Option<u32>, Seq<char>)>, value: MagicVariableType) -> GatherState {
    match target {
        Some((None, name)) => GatherState { vars: s.vars.insert(name, Some(value)), ..s },
        Some((Some(id), name)) => if id < s.counter {
            GatherState { objs: s.objs.update(id as int, s.objs[id as int].insert(name, Some(value))), ..s }
        } else {
            s
        },
        None => s,
    }
}

/// The value stored where `target` lives.
pub open spec fn gs_get(s: GatherState, target: Option<(Option<u32>, Seq<char>)>) -> Option<MagicVariableType> {
    match target {
        Some((None, name)) => s.vars[name],
        Some((Some(id), name)) => if id < s.counter { s.objs[id as int][name] } else { None },
        None => None,
    }
}

/// Follows the first `i` names, innermost first, from object `store`: a name
/// that holds an object leads into it, one that holds another value is passed
/// over, and one that holds nothing gets a new object. Gives the state and
/// the object reached; none where no number was left for a new object.
pub open spec fn gs_walk(s: GatherState, store: u32, names: Seq<(Seq<char>, Range<usize>)>, i: int) -> (GatherState, Option<u32>)
    decreases i,
{
    if i <= 0 {
        (s, Some(store))
    } else {
        let name = names[i - 1].0;
        match s.objs[store as int][name] {
            Some(MagicVariableType::ObjectRef(id)) => gs_walk(s, id, names, i - 1),
            Some(_) => gs_walk(s, store, names, i - 1),
            None => if s.counter >= u32::MAX {
                (s, None)
            } else {
                let id = s.counter as u32;
                gs_walk(gs_set(gs_new_obj(s), Some((Some(store), name)), MagicVariableType::ObjectRef(id)), id, names, i - 1)
            },
        }
    }
}

/// Whether an expression is a property access.
pub open spec fn is_access(a: ExprView) -> bool {
    a is AccessName || a is AccessExpr
}

/// The object of a property access.
pub open spec fn access_base(a: ExprView) -> ExprView {
    match a {
        ExprView::AccessName(_, x, _) => *x,
        ExprView::AccessExpr(_, x, _) => *x,
        _ => a,
    }
}

/// The text the property of an access spells: a name, a string or a number.
pub open spec fn prop_text(a: ExprView, d: Seq<u8>) -> Option<Seq<char>> {
    match a {
        ExprView::AccessName(n, _, _) => Some(text_at(d, n)),
        ExprView::AccessExpr(x, _, _) => match *x {
            ExprView::String(r) => Some(text_at(d, r)),
            ExprView::Number(r) => Some(text_at(d, r)),
            _ => None,
        },
        _ => None,
    }
}

/// The names of a chain of property accesses, outermost first, each with the
/// range of its access, and the range of the variable the chain starts from;
/// none where a property spells no text or the chain starts from no variable.
pub open spec fn view_chain(e: ExprView, d: Seq<u8>) -> Option<(Seq<(Seq<char>, Range<usize>)>, Range<usize>)>
    decreases e,
{
    match e {
        ExprView::AccessName(n, x, r) => match view_chain(*x, d) {
            Some(p) => Some((seq![(text_at(d, n), r)] + p.0, p.1)),
            None => None,
        },
        ExprView::AccessExpr(_, x, r) => match prop_text(e, d) {
            Some(t) => match view_chain(*x, d) {
                Some(p) => Some((seq![(t, r)] + p.0, p.1)),
                None => None,
            },
            None => None,
        },
        ExprView::Identifier(r) => Some((seq![], r)),
        _ => None,
    }
}

pub proof fn lemma_view_chain(e: ASTExpression, d: Seq<u8>)
    ensures
        chain_names(e, d) == view_chain(expr_view(e), d),
    decreases e,
{
    if let ASTExpression::Access(acc) = e {
        lemma_view_chain(acc.expression, d);
        lemma_prop_text(*acc, d);
    }
}

pub proof fn lemma_prop_text(acc: ASTAccess, d: Seq<u8>)
    ensures
        prop_text(expr_view(ASTExpression::Access(Box::new(acc))), d) == accessor_text(acc.accessor, d),
{
    let v = expr_view(ASTExpression::Access(Box::new(acc)));
    if acc.accessor is Identifier {
        assert(v == ExprView::AccessName(acc.accessor->Identifier_0.range, Box::new(expr_view(acc.expression)), acc.range));
    } else {
        let x = acc.accessor->Expression_0;
        assert(v == ExprView::AccessExpr(Box::new(expr_view(x)), Box::new(expr_view(acc.expression)), acc.range));
        if x is String {
        } else if x is Number {
        } else {
            assert(!(expr_view(x) is String) && !(expr_view(x) is Number));
        }
    }
}

/// Where the target of an assignment to the property access `a` lives, with
/// the objects made on the way.
pub open spec fn gs_resolve_chain(s: GatherState, a: ExprView, d: Seq<u8>) -> (GatherState, Option<(Option<u32>, Seq<char>)>) {
    if is_access(access_base(a)) {
        match view_chain(access_base(a), d) {
            None => (s, None),
            Some(c) => {
                let first = text_at(d, c.1);
                let (s1, store): (GatherState, Option<u32>) = match s.vars[first] {
                    Some(MagicVariableType::ObjectRef(id)) => (s, Some(id)),
                    _ => if s.counter >= u32::MAX {
                        (s, None)
                    } else {
                        let id = s.counter as u32;
                        let s2 = gs_set(gs_new_obj(s), Some((None, first)), MagicVariableType::ObjectRef(id));
                        (GatherState { collected: s2.collected.push((first, 4u8)), ..s2 }, Some(id))
                    },
                };
                match store {
                    None => (s1, None),
                    Some(st) => {
                        let w = gs_walk(s1, st, c.0, c.0.len() as int);
                        match w.1 {
                            None => (w.0, None),
                            Some(target) => match prop_text(a, d) {
                                Some(name) => (w.0, Some((Some(target), name))),
                                None => (w.0, None),
                            },
                        }
                    },
                }
            },
        }
    } else {
        match prop_text(a, d) {
            Some(name) => (s, Some((None, name))),
            None => (s, None),
        }
    }
}

/// The type an assignment with operator `op` gives its target, and the state after.
pub open spec fn gs_assign(s: GatherState, op: TokenKind, right: ExprView, d: Seq<u8>) -> (GatherState, MagicVariableType)
    decreases right, 1int,
{
    if (op == TokenKind::MinusEqualsOp || op == TokenKind::StarEqualsOp) && right is Number {
        (s, MagicVariableType::Number)
    } else {
        gs_process(s, right, d)
    }
}

/// The type an expression gives, and the state once its assignments are recorded.
pub open spec fn gs_process(s: GatherState, e: ExprView, d: Seq<u8>) -> (GatherState, MagicVariableType)
    decreases e, 0int,
{
    match e {
        ExprView::Binary(op, l, r, _) => match *l {
            ExprView::Identifier(lr) => {
                let x = gs_assign(s, op, *r, d);
                let name = text_at(d, lr);
                let s1 = GatherState { collected: x.0.collected.push((name, type_id(x.1))), ..x.0 };
                (gs_set(s1, Some((None, name)), x.1), x.1)
            },
            ExprView::AccessName(_, _, _) | ExprView::AccessExpr(_, _, _) => {
                let x = gs_assign(s, op, *r, d);
                let t = gs_resolve_chain(x.0, *l, d);
                (gs_set(t.0, t.1, x.1), x.1)
            },
            _ => {
                let a = gs_process(s, *l, d);
                (gs_process(a.0, *r, d).0, MagicVariableType::Unknown)
            },
        },
        ExprView::String(_) => (s, MagicVariableType::String),
        ExprView::Number(_) => (s, MagicVariableType::Number),
        ExprView::Boolean(_) => (s, MagicVariableType::Bool),
        ExprView::ArrayLit(_, _) => (s, MagicVariableType::Array),
        ExprView::Identifier(r) => (s, match s.vars[text_at(d, r)] {
            Some(t) => t,
            None => MagicVariableType::Unknown,
        }),
        ExprView::AccessName(_, _, _) | ExprView::AccessExpr(_, _, _) => {
            let t = gs_resolve_chain(s, e, d);
            (t.0, match gs_get(t.0, t.1) {
                Some(v) => v,
                None => MagicVariableType::Unknown,
            })
        },
        ExprView::Unary(_, x, _) => (gs_process(s, *x, d).0, MagicVariableType::Unknown),
        ExprView::Call(x, _, _) => (gs_process(s, *x, d).0, MagicVariableType::Unknown),
        ExprView::New(x, _, _) => (gs_process(s, *x, d).0, MagicVariableType::Unknown),
        ExprView::Ternary(c, l, r, _) => {
            let a = gs_process(s, *c, d);
            let b = gs_process(a.0, *l, d);
            (gs_process(b.0, *r, d).0, MagicVariableType::Unknown)
        },
    }
}

/// The state once the first `n` expressions were gone through in order.
pub open spec fn gs_run(s: GatherState, exps: Seq<ExprView>, n: int, d: Seq<u8>) -> GatherState
    decreases n,
{
    if n <= 0 {
        s
    } else {
        gs_process(gs_run(s, exps, n - 1, d), exps[n - 1], d).0
    }
}

/// Gathers the types that javascript gives to magic variables.
pub struct MagicVarCollector<'a> {
    pub input: InputPresenter<'a>,
    /// Each variable assigned at the top level, with the number of its type.
    pub collected: Vec<(String, u8)>,
    pub start_pos: Range<usize>,
    pub ctx: MagicVariableCollectorContext,
}

/// Collected pairs are only ever added.
pub open spec fn collected_grows(a: Seq<(String, u8)>, b: Seq<(String, u8)>) -> bool {
    a.len() <= b.len() && b.take(a.len() as int) == a
}

pub proof fn lemma_collected_trans(a: Seq<(String, u8)>, b: Seq<(String, u8)>, c: Seq<(String, u8)>)
    requires
        collected_grows(a, b),
        collected_grows(b, c),
    ensures
        collected_grows(a, c),
{
    assert(c.take(a.len() as int) =~= b.take(a.len() as int));
}

impl<'a> MagicVarCollector<'a> {
    pub fn new(input: InputPresenter<'a>, start_pos: Range<usize>, ctx: MagicVariableCollectorContext) -> (c: Self)
        ensures
            c.input == input,
            c.start_pos == start_pos,
            c.ctx == ctx,
            c.collected@.len() == 0,
    {
        MagicVarCollector { collected: Vec::new(), start_pos, ctx, input }
    }

    pub open spec fn len(&self) -> int {
        self.input.data@.len() as int
    }

    /// The collector keeps its input and start, its context well formed, and only adds to what it collected.
    pub open spec fn steps(&self, before: &Self) -> bool {
        &&& self.input == before.input
        &&& self.start_pos == before.start_pos
        &&& self.ctx.wf()
        &&& self.ctx.counter >= before.ctx.counter
        &&& collected_grows(before.collected@, self.collected@)
    }

    /// Gathers the types of all the expressions.
    pub fn run(&mut self, exps: &Vec<ASTExpression>)
        requires
            old(self).ctx.wf(),
            forall|i: int| 0 <= i < exps@.len() ==> wf_expr(#[trigger] exps@[i], old(self).len()),
        ensures
            final(self).steps(old(self)),
            final(self).ctx.diagnostics == old(self).ctx.diagnostics,
            gather_view(final(self).ctx, final(self).collected@) == gs_run(
                gather_view(old(self).ctx, old(self).collected@),
                expr_views(exps@),
                exps@.len() as int,
                old(self).input.data@,
            ),
    {
        let mut i: usize = 0;
        proof {
            assert(self.collected@.take(self.collected@.len() as int) =~= self.collected@);
            lemma_expr_views(exps@);
        }
        while i < exps.len()
            invariant
                self.steps(old(self)),
                i <= exps@.len(),
                self.ctx.diagnostics == old(self).ctx.diagnostics,
                expr_views(exps@).len() == exps@.len(),
                forall|j: int| 0 <= j < exps@.len() ==> #[trigger] expr_views(exps@)[j] == expr_view(exps@[j]),
                gather_view(self.ctx, self.collected@) == gs_run(
                    gather_view(old(self).ctx, old(self).collected@),
                    expr_views(exps@),
                    i as int,
                    old(self).input.data@,
                ),
                forall|j: int| 0 <= j < exps@.len() ==> wf_expr(#[trigger] exps@[j], old(self).len()),
            decreases exps@.len() - i,
        {
            let ghost before = self.collected@;
            self.process_exp(&exps[i]);
            proof {
                lemma_collected_trans(old(self).collected@, before, self.collected@);
            }
            i = i + 1;
        }
    }

    /// The text an accessor spells: a name, a string or a number.
    fn get_string_from_accessor(&self, accessor: &ASTAccessContent) -> (r: Option<String>)
        requires
            accessor matches ASTAccessContent::Identifier(i) ==> i.range.start <= i.range.end <= self.len(),
            accessor matches ASTAccessContent::Expression(x) ==> wf_expr(*x, self.len()),
        ensures
            accessor matches ASTAccessContent::Identifier(i) ==> r matches Some(s) && s@ == text_at(
                self.input.data@,
                i.range,
            ),
            match r {
                Some(s) => accessor_text(*accessor, self.input.data@) == Some(s@),
                None => accessor_text(*accessor, self.input.data@).is_none(),
            },
    {
        match accessor {
            ASTAccessContent::Identifier(ident) => Some(self.input.from_range(&ident.range)),
            ASTAccessContent::Expression(exp) => match exp {
                ASTExpression::String(str) => Some(self.input.from_range(&str.range)),
                ASTExpression::Number(num) => Some(self.input.from_range(&num.range)),
                _ => None,
            },
        }
    }

    /// Finds where the target of a property access lives, making the objects
    /// on the way that do not exist yet.
    fn resolve_chain(&mut self, chain: &ASTAccess) -> (r: ResolveChainResult)
        requires
            old(self).ctx.wf(),
            wf_expr(ASTExpression::Access(Box::new(*chain)), old(self).len()),
        ensures
            final(self).steps(old(self)),
            r matches ResolveChainResult::Nested(id, _) ==> id < final(self).ctx.counter,
            final(self).ctx.diagnostics == old(self).ctx.diagnostics,
            (gather_view(final(self).ctx, final(self).collected@), target_view(r)) == gs_resolve_chain(
                gather_view(old(self).ctx, old(self).collected@),
                expr_view(ASTExpression::Access(Box::new(*chain))),
                old(self).input.data@,
            ),
    {
        proof {
            assert(self.collected@.take(self.collected@.len() as int) =~= self.collected@);
        }
        let ghost d = self.input.data@;
        let ghost g0 = gather_view(self.ctx, self.collected@);
        proof {
            lemma_view_chain(chain.expression, d);
            let ev = expr_view(ASTExpression::Access(Box::new(*chain)));
            assert(access_base(ev) == expr_view(chain.expression));
            lemma_prop_text(*chain, d);
        }
        if let ASTExpression::Access(_) = &chain.expression {
            let mut result: Vec<(String, Range<usize>)> = Vec::new();
            let mut left = &chain.expression;
            loop
                invariant
                    wf_expr(*left, self.len()),
                    *self == *old(self),
                    self.ctx.wf(),
                    collected_grows(old(self).collected@, self.collected@),
                    chain.expression is Access,
                    g0 == gather_view(old(self).ctx, old(self).collected@),
                    view_chain(expr_view(chain.expression), d) == chain_names(chain.expression, d),
                    access_base(expr_view(ASTExpression::Access(Box::new(*chain)))) == expr_view(chain.expression),
                    d == self.input.data@,
                    chain_names(chain.expression, d) == match chain_names(*left, d) {
                        Some(p) => Some((names_of(result@) + p.0, p.1)),
                        None => None,
                    },
                ensures
                    !((*left) is Access),
                decreases *left,
            {
                match left {
                    ASTExpression::Access(acc) => {
                        match self.get_string_from_accessor(&acc.accessor) {
                            Some(val) => {
                                let ghost before = result@;
                                result.push((val, acc.range));
                                proof {
                                    assert(names_of(result@) =~= names_of(before).push((val@, acc.range)));
                                    match chain_names(acc.expression, d) {
                                        Some(p) => {
                                            assert(names_of(before) + (seq![(val@, acc.range)] + p.0) =~= names_of(result@) + p.0);
                                        },
                                        None => {},
                                    }
                                }
                            },
                            None => { return ResolveChainResult::Unresolved; },
                        }
                        left = &acc.expression;
                    },
                    _ => { break; },
                }
            }
            let first_object_name = match left {
                ASTExpression::Identifier(ident) => self.input.from_range(&ident.range),
                _ => { return ResolveChainResult::Unresolved; },
            };
            let ghost names = names_of(result@);
            proof {
                assert(names + Seq::<(Seq<char>, Range<usize>)>::empty() =~= names);
            }
            let mut store = match self.ctx.get_obj_id_from_name(first_object_name.as_str()) {
                Some(id) => {
                    proof {
                        lemma_object_get_valid(self.ctx.variables.0@, first_object_name@, self.ctx.counter as int);
                    }
                    id
                },
                None => {
                    if self.ctx.counter == u32::MAX {
                        return ResolveChainResult::Unresolved;
                    }
                    let ghost ga = gather_view(self.ctx, self.collected@);
                    let new_obj_id = self.ctx.create_obj();
                    proof {
                        assert(gather_view(self.ctx, self.collected@) == gs_new_obj(ga));
                    }
                    let ghost ctx1 = self.ctx;
                    let ghost before = self.ctx.variables.0@;
                    self.ctx.variables.insert(first_object_name.clone(), MagicVariableType::ObjectRef(new_obj_id));
                    proof {
                        lemma_insert_valid(before, self.ctx.variables.0@, MagicVariableType::ObjectRef(new_obj_id), self.ctx.counter as int);
                    }
                    let ghost c0 = self.collected@;
                    self.collected.push((first_object_name, 4u8));
                    proof {
                        assert(self.collected@.take(c0.len() as int) =~= c0);
                        lemma_collected_trans(old(self).collected@, c0, self.collected@);
                        let g2 = gs_set(gs_new_obj(ga), Some((None, first_object_name@)), MagicVariableType::ObjectRef(new_obj_id));
                        assert(self.ctx.objects == ctx1.objects);
                        assert(gather_view(self.ctx, self.collected@).objs =~= g2.objs);
                        assert(gather_view(self.ctx, self.collected@).vars =~= g2.vars);
                        assert(gather_view(self.ctx, self.collected@).collected =~= g2.collected.push((first_object_name@, 4u8)));
                    }
                    new_obj_id
                },
            };
            let ghost s1 = gather_view(self.ctx, self.collected@);
            let ghost st0 = store;
            proof {
                let c = chain_names(chain.expression, d).unwrap();
                assert(c.0 == names);
                let w = gs_walk(s1, st0, names, names.len() as int);
                assert(gs_resolve_chain(g0, expr_view(ASTExpression::Access(Box::new(*chain))), d) == match w.1 {
                    None => (w.0, None),
                    Some(target) => match accessor_text(chain.accessor, d) {
                        Some(name) => (w.0, Some((Some(target), name))),
                        None => (w.0, None),
                    },
                });
            }
            let mut i: usize = result.len();
            while i > 0
                invariant
                    i <= result@.len(),
                    names == names_of(result@),
                    d == self.input.data@,
                    self.steps(old(self)),
                    self.ctx.diagnostics == old(self).ctx.diagnostics,
                    store < self.ctx.counter,
                    gs_walk(s1, st0, names, names.len() as int) == gs_walk(gather_view(self.ctx, self.collected@), store, names, i as int),
                    g0 == gather_view(old(self).ctx, old(self).collected@),
                    gs_resolve_chain(g0, expr_view(ASTExpression::Access(Box::new(*chain))), d) == match gs_walk(s1, st0, names, names.len() as int).1 {
                        None => (gs_walk(s1, st0, names, names.len() as int).0, None),
                        Some(target) => match accessor_text(chain.accessor, d) {
                            Some(name) => (gs_walk(s1, st0, names, names.len() as int).0, Some((Some(target), name))),
                            None => (gs_walk(s1, st0, names, names.len() as int).0, None),
                        },
                    },
                decreases i,
            {
                i = i - 1;
                let object_name = &result[i];
                let found = self.ctx.objects[store as usize].get(object_name.0.as_str());
                proof {
                    lemma_object_get_valid(self.ctx.objects@[store as int].0@, object_name.0@, self.ctx.counter as int);
                    assert(names[i as int].0 == object_name.0@);
                    assert(gather_view(self.ctx, self.collected@).objs[store as int] == value_map(self.ctx.objects@[store as int].0@));
                }
                match found {
                    Some(MagicVariableType::ObjectRef(id)) => {
                        store = id;
                    },
                    Some(_) => {},
                    None => {
                        if self.ctx.counter == u32::MAX {
                            return ResolveChainResult::Unresolved;
                        }
                        let new_obj_id = self.ctx.create_obj();
                        let target = ResolveChainResult::Nested(store, object_name.0.clone());
                        target.set(&mut self.ctx, MagicVariableType::ObjectRef(new_obj_id));
                        store = new_obj_id;
                    },
                }
            }
            match self.get_string_from_accessor(&chain.accessor) {
                Some(val) => ResolveChainResult::Nested(store, val),
                None => ResolveChainResult::Unresolved,
            }
        } else {
            match self.get_string_from_accessor(&chain.accessor) {
                Some(val) => ResolveChainResult::Top(val),
                None => ResolveChainResult::Unresolved,
            }
        }
    }

    /// The type an assignment with the operator gives its target.
    fn resolve_binary(&mut self, op: &TokenKind, right: &ASTExpression) -> (t: MagicVariableType)
        requires
            old(self).ctx.wf(),
            wf_expr(*right, old(self).len()),
        ensures
            final(self).steps(old(self)),
            type_valid(t, final(self).ctx.counter as int),
            (*op == TokenKind::MinusEqualsOp || *op == TokenKind::StarEqualsOp) && right is Number ==> t
                == MagicVariableType::Number,
            final(self).ctx.diagnostics == old(self).ctx.diagnostics,
            (gather_view(final(self).ctx, final(self).collected@), t) == gs_assign(
                gather_view(old(self).ctx, old(self).collected@),
                *op,
                expr_view(*right),
                old(self).input.data@,
            ),
        decreases right, 1int,
    {
        if (*op == TokenKind::MinusEqualsOp || *op == TokenKind::StarEqualsOp) && matches!(right, ASTExpression::Number(_)) {
            proof {
                assert(self.collected@.take(self.collected@.len() as int) =~= self.collected@);
            }
            MagicVariableType::Number
        } else {
            self.process_exp(right)
        }
    }

    /// The type of value an expression gives; records the assignments it makes.
    fn process_exp(&mut self, exp: &ASTExpression) -> (t: MagicVariableType)
        requires
            old(self).ctx.wf(),
            wf_expr(*exp, old(self).len()),
        ensures
            final(self).steps(old(self)),
            type_valid(t, final(self).ctx.counter as int),
            exp is String ==> t == MagicVariableType::String,
            exp is Number ==> t == MagicVariableType::Number,
            exp is Boolean ==> t == MagicVariableType::Bool,
            exp is ArrayLit ==> t == MagicVariableType::Array,
            exp matches ASTExpression::Identifier(i) ==> t == (match object_get(
                old(self).ctx.variables.0@,
                text_at(old(self).input.data@, i.range),
            ) {
                Some(v) => v,
                None => MagicVariableType::Unknown,
            }),
            final(self).ctx.diagnostics == old(self).ctx.diagnostics,
            (gather_view(final(self).ctx, final(self).collected@), t) == gs_process(
                gather_view(old(self).ctx, old(self).collected@),
                expr_view(*exp),
                old(self).input.data@,
            ),
        decreases exp, 0int,
    {
        proof {
            assert(self.collected@.take(self.collected@.len() as int) =~= self.collected@);
        }
        match exp {
            ASTExpression::Binary(binary) => match &binary.left {
                ASTExpression::Identifier(left_ident) => {
                    assert(wf_expr(binary.left, self.len()));
                    let left_name = self.input.from_range(&left_ident.range);
                    let ghost c0 = self.collected@;
                    let var_type = self.resolve_binary(&binary.operator, &binary.right);
                    let ghost c1 = self.collected@;
                    self.collected.push((left_name.clone(), var_type.get_id()));
                    let ghost before = self.ctx.variables.0@;
                    self.ctx.variables.insert(left_name, var_type);
                    proof {
                        lemma_insert_valid(before, self.ctx.variables.0@, var_type, self.ctx.counter as int);
                        assert(self.collected@.take(c1.len() as int) =~= c1);
                        lemma_collected_trans(c0, c1, self.collected@);
                    }
                    assert((gather_view(self.ctx, self.collected@), var_type) == gs_process(
                        gather_view(old(self).ctx, old(self).collected@), expr_view(*exp), self.input.data@));
                    var_type
                },
                ASTExpression::Access(access) => {
                    let ghost c0 = self.collected@;
                    let right_type = self.resolve_binary(&binary.operator, &binary.right);
                    let ghost c1 = self.collected@;
                    let target = self.resolve_chain(access);
                    proof {
                        lemma_collected_trans(c0, c1, self.collected@);
                    }
                    target.set(&mut self.ctx, right_type);
                    assert((gather_view(self.ctx, self.collected@), right_type) == gs_process(
                        gather_view(old(self).ctx, old(self).collected@), expr_view(*exp), self.input.data@));
                    right_type
                },
                _ => {
                    let ghost c0 = self.collected@;
                    self.process_exp(&binary.left);
                    let ghost c1 = self.collected@;
                    self.process_exp(&binary.right);
                    proof {
                        lemma_collected_trans(c0, c1, self.collected@);
                    }
                    assert(!is_access(expr_view(binary.left)) && !(expr_view(binary.left) is Identifier));
                    assert((gather_view(self.ctx, self.collected@), MagicVariableType::Unknown) == gs_process(
                        gather_view(old(self).ctx, old(self).collected@), expr_view(*exp), self.input.data@));
                    MagicVariableType::Unknown
                },
            },
            ASTExpression::String(_) => MagicVariableType::String,
            ASTExpression::Number(_) => MagicVariableType::Number,
            ASTExpression::Boolean(_) => MagicVariableType::Bool,
            ASTExpression::ArrayLit(_) => MagicVariableType::Array,
            ASTExpression::Identifier(ident) => {
                let name = self.input.from_range(&ident.range);
                let found = self.ctx.variables.get(name.as_str());
                proof {
                    lemma_object_get_valid(self.ctx.variables.0@, name@, self.ctx.counter as int);
                }
                match found {
                    Some(typ) => typ,
                    None => MagicVariableType::Unknown,
                }
            },
            ASTExpression::Access(access) => {
                let target = self.resolve_chain(access);
                match target.get(&self.ctx) {
                    Some(var_type) => var_type,
                    None => MagicVariableType::Unknown,
                }
            },
            ASTExpression::Unary(unary) => {
                self.process_exp(&unary.expression);
                MagicVariableType::Unknown
            },
            ASTExpression::Call(call) => {
                self.process_exp(&call.expression);
                MagicVariableType::Unknown
            },
            ASTExpression::New(new) => {
                self.process_exp(&new.expression);
                MagicVariableType::Unknown
            },
            ASTExpression::Ternary(ternary) => {
                let ghost c0 = self.collected@;
                self.process_exp(&ternary.condition);
                let ghost c1 = self.collected@;
                self.process_exp(&ternary.left);
                let ghost c2 = self.collected@;
                self.process_exp(&ternary.right);
                proof {
                    lemma_collected_trans(c0, c1, c2);
                    lemma_collected_trans(c0, c2, self.collected@);
                }
                MagicVariableType::Unknown
            },
        }
    }
}

} // verus!
