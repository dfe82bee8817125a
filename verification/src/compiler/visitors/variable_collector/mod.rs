pub mod variable;

use vstd::prelude::*;
use vstd::string::*;
use crate::diagnostics::location::Range;
use crate::js_parser::input::InputPresenter;
use crate::js_parser::parser::ast::{ASTAccess, ASTAccessContent, ASTExpression, ExprView, expr_view, expr_views, lemma_expr_views, wf_expr};
use crate::compiler::visitors::magic_vars::{is_array_method, is_array_method_name};
use crate::js_parser::tokenizer::TokenKind;
use crate::parser::ast::model::str_eq;
use crate::strings::lossy_utf8;
use self::variable::{AssignmentStore, VariableAssignment, VariableKind, assignments_of, entry_index, kind_eq};

verus! {

/// Gathers the assignments that javascript expressions make to variables.
pub struct VariableCollector<'a> {
    pub collected: AssignmentStore,
    pub input: InputPresenter<'a>,
    pub start_pos: Range<usize>,
}

/// The text of the input in a range.
pub open spec fn text_at(d: Seq<u8>, r: Range<usize>) -> Seq<char> {
    lossy_utf8(d.subrange(r.start as int, r.end as int))
}

/// Assignments are only ever added: what a name had, it keeps, in front.
pub open spec fn store_grows(a: AssignmentStore, b: AssignmentStore) -> bool {
    forall|k: Seq<char>| #[trigger] assignments_of(b.0@, k).len() >= assignments_of(a.0@, k).len()
        && assignments_of(b.0@, k).take(assignments_of(a.0@, k).len() as int) == assignments_of(a.0@, k)
}


/// A kind of value as a plain value: a reference by the name it refers to.
pub enum KindView {
    String,
    Number,
    Bool,
    Array,
    Object,
    Mapping,
    Ref(Seq<char>),
    Unknown,
}

pub open spec fn kind_view(k: VariableKind) -> KindView {
    match k {
        VariableKind::String => KindView::String,
        VariableKind::Number => KindView::Number,
        VariableKind::Bool => KindView::Bool,
        VariableKind::Array => KindView::Array,
        VariableKind::Object => KindView::Object,
        VariableKind::Mapping => KindView::Mapping,
        VariableKind::Ref(n) => KindView::Ref(n@),
        VariableKind::Unknown => KindView::Unknown,
    }
}

pub open spec fn opt_kind_view(k: Option<VariableKind>) -> Option<KindView> {
    match k {
        Some(x) => Some(kind_view(x)),
        None => None,
    }
}

/// The assignments under each name, each its kind and range; a name without any has none.
pub open spec fn store_view(s: AssignmentStore) -> Map<Seq<char>, Seq<(KindView, Range<usize>)>> {
    Map::new(
        |k: Seq<char>| true,
        |k: Seq<char>| assignments_of(s.0@, k).map_values(|a: VariableAssignment| (kind_view(a.kind), a.range)),
    )
}

/// The names joined with dots, the last first.
pub open spec fn rev_join(c: Seq<Seq<char>>) -> Seq<char>
    decreases c.len(),
{
    if c.len() == 0 {
        seq![]
    } else if c.len() == 1 {
        c[0]
    } else {
        rev_join(c.drop_first()) + "."@ + c[0]
    }
}

/// The dotted name of a chain of property accesses by name on a variable,
/// such as `a.b.c`; none for anything else.
pub open spec fn vc_dotted(e: ExprView, d: Seq<u8>) -> Option<Seq<char>>
    decreases e,
{
    match e {
        ExprView::Identifier(r) => Some(text_at(d, r)),
        ExprView::AccessName(n, x, _) => match vc_dotted(*x, d) {
            Some(p) => Some(p + "."@ + text_at(d, n)),
            None => None,
        },
        _ => None,
    }
}

/// Kinds that are referred to by the name they are stored under.
pub open spec fn is_compound(k: KindView) -> bool {
    k is Array || k is Mapping || k is Object
}

/// A range of the javascript as a range of the whole text (additions saturate).
pub open spec fn vc_range(sp: Range<usize>, r: Range<usize>) -> Range<usize> {
    let start: int = if sp.start + r.start <= usize::MAX { sp.start + r.start } else { usize::MAX as int };
    let end: int = if start + r.end <= usize::MAX { start + r.end } else { usize::MAX as int };
    Range { start: start as usize, end: end as usize }
}

/// Records an assignment of `kind` to the target; gives the kind the target
/// then has, or none where the target is no variable.
pub open spec fn vc_target(
    st: Map<Seq<char>, Seq<(KindView, Range<usize>)>>,
    target: ExprView,
    kind: KindView,
    d: Seq<u8>,
    sp: Range<usize>,
) -> (Map<Seq<char>, Seq<(KindView, Range<usize>)>>, Option<KindView>) {
    let named: Option<(Seq<char>, Range<usize>)> = match target {
        ExprView::Identifier(r) => Some((text_at(d, r), r)),
        ExprView::AccessName(n, _, _) => match vc_dotted(target, d) {
            Some(name) => Some((name, n)),
            None => None,
        },
        _ => None,
    };
    match named {
        Some((name, r)) => (
            st.insert(name, st[name].push((kind, vc_range(sp, r)))),
            Some(if is_compound(kind) { KindView::Ref(name) } else { kind }),
        ),
        None => (st, None),
    }
}

/// The kind an assignment with operator `op` gives its target, with the state after.
pub open spec fn vc_assign(
    st: Map<Seq<char>, Seq<(KindView, Range<usize>)>>,
    op: TokenKind,
    right: ExprView,
    d: Seq<u8>,
    sp: Range<usize>,
) -> (Map<Seq<char>, Seq<(KindView, Range<usize>)>>, KindView)
    decreases right, 1int,
{
    if op == TokenKind::PlusEqualsOp {
        (st, match right {
            ExprView::String(_) => KindView::String,
            ExprView::Number(_) => KindView::Number,
            _ => KindView::Unknown,
        })
    } else if op == TokenKind::MinusEqualsOp || op == TokenKind::StarEqualsOp || op == TokenKind::SlashEqualsOp {
        (st, if right is Number { KindView::Number } else { KindView::Unknown })
    } else {
        vc_process(st, right, d, sp)
    }
}

/// The methods that change an array, and those of a map.
pub open spec fn is_map_method(t: Seq<char>) -> bool {
    ||| t == "set"@
    ||| t == "clear"@
    ||| t == "has"@
    ||| t == "get"@
    ||| t == "keys"@
    ||| t == "values"@
}

/// The kind an expression gives, with the assignments it makes recorded.
pub open spec fn vc_process(
    st: Map<Seq<char>, Seq<(KindView, Range<usize>)>>,
    e: ExprView,
    d: Seq<u8>,
    sp: Range<usize>,
) -> (Map<Seq<char>, Seq<(KindView, Range<usize>)>>, KindView)
    decreases e, 0int,
{
    match e {
        ExprView::Binary(op, l, r, _) => {
            let a = vc_assign(st, op, *r, d, sp);
            let t = vc_target(a.0, *l, a.1, d, sp);
            match t.1 {
                Some(k) => (t.0, k),
                None => {
                    let x = vc_process(t.0, *l, d, sp);
                    (vc_process(x.0, *r, d, sp).0, KindView::Unknown)
                },
            }
        },
        ExprView::String(_) => (st, KindView::String),
        ExprView::Number(_) => (st, KindView::Number),
        ExprView::Boolean(_) => (st, KindView::Bool),
        ExprView::ArrayLit(_, _) => (st, KindView::Array),
        ExprView::Identifier(r) => (st, KindView::Ref(text_at(d, r))),
        ExprView::AccessName(_, _, _) => (st, match vc_dotted(e, d) {
            Some(n) => KindView::Ref(n),
            None => KindView::Unknown,
        }),
        ExprView::AccessExpr(_, _, _) => (st, KindView::Unknown),
        ExprView::Call(x, _, _) => (match *x {
            ExprView::AccessName(n, base, _) => if is_array_method(text_at(d, n)) {
                vc_target(st, *base, KindView::Array, d, sp).0
            } else if is_map_method(text_at(d, n)) {
                vc_target(st, *base, KindView::Mapping, d, sp).0
            } else {
                st
            },
            _ => st,
        }, KindView::Unknown),
        ExprView::Unary(_, x, _) => (vc_process(st, *x, d, sp).0, KindView::Unknown),
        ExprView::New(x, _, _) => (vc_process(st, *x, d, sp).0, KindView::Unknown),
        ExprView::Ternary(c, l, r, _) => {
            let a = vc_process(st, *c, d, sp);
            let b = vc_process(a.0, *l, d, sp);
            (vc_process(b.0, *r, d, sp).0, KindView::Unknown)
        },
    }
}

/// Calling a map method (`set`, `clear`, `has`, `get`, `keys`, `values`) on a
/// variable records one more assignment to that variable, of the map kind,
/// at the variable's place in the text; nothing else is recorded, and the
/// call itself has no known kind.
pub proof fn law_map_method_call(
    st: Map<Seq<char>, Seq<(KindView, Range<usize>)>>,
    name: Range<usize>,
    base: Range<usize>,
    access: Range<usize>,
    args: Seq<ExprView>,
    call: Range<usize>,
    d: Seq<u8>,
    sp: Range<usize>,
)
    requires
        is_map_method(text_at(d, name)),
    ensures
        ({
            let e = ExprView::Call(
                Box::new(ExprView::AccessName(name, Box::new(ExprView::Identifier(base)), access)),
                args,
                call,
            );
            let v = text_at(d, base);
            let r = vc_process(st, e, d, sp);
            &&& r.0 == st.insert(v, st[v].push((KindView::Mapping, vc_range(sp, base))))
            &&& r.0[v].last().0 == KindView::Mapping
            &&& forall|k: Seq<char>| k != v ==> r.0[k] == st[k]
            &&& r.1 == KindView::Unknown
        }),
{
    reveal_strlit("set");
    reveal_strlit("clear");
    reveal_strlit("has");
    reveal_strlit("get");
    reveal_strlit("keys");
    reveal_strlit("values");
    reveal_strlit("push");
    reveal_strlit("pop");
    reveal_strlit("join");
    reveal_strlit("slice");
    reveal_strlit("splice");
    reveal_strlit("shift");
    reveal_strlit("unshift");
    let t = text_at(d, name);
    assert(t.len() >= 3);
    let c0 = t[0];
    assert(c0 == 's' ==> t.len() == 3) by {
        if c0 == 's' {
            assert(t == "set"@);
        }
    }
    assert(t != "push"@ && t != "pop"@ && t != "join"@ && t != "slice"@ && t != "splice"@ && t != "shift"@
        && t != "unshift"@) by {
        if t == "push"@ || t == "pop"@ || t == "join"@ || t == "slice"@ || t == "splice"@ || t == "shift"@ || t == "unshift"@ {
            assert(c0 == 'p' || c0 == 'j' || c0 == 's' || c0 == 'u');
            assert(c0 == 's' || c0 == 'c' || c0 == 'h' || c0 == 'g' || c0 == 'k' || c0 == 'v');
        }
    }
    assert(!is_array_method(t));
}

/// Calling an array method (`push`, `pop`, `join`, `slice`, `splice`,
/// `shift`, `unshift`) on a variable records one more assignment to that
/// variable, of the array kind, at the variable's place in the text; nothing
/// else is recorded, and the call itself has no known kind.
pub proof fn law_array_method_call_kind(
    st: Map<Seq<char>, Seq<(KindView, Range<usize>)>>,
    name: Range<usize>,
    base: Range<usize>,
    access: Range<usize>,
    args: Seq<ExprView>,
    call: Range<usize>,
    d: Seq<u8>,
    sp: Range<usize>,
)
    requires
        is_array_method(text_at(d, name)),
    ensures
        ({
            let e = ExprView::Call(
                Box::new(ExprView::AccessName(name, Box::new(ExprView::Identifier(base)), access)),
                args,
                call,
            );
            let v = text_at(d, base);
            let r = vc_process(st, e, d, sp);
            &&& r.0 == st.insert(v, st[v].push((KindView::Array, vc_range(sp, base))))
            &&& r.0[v].last().0 == KindView::Array
            &&& forall|k: Seq<char>| k != v ==> r.0[k] == st[k]
            &&& r.1 == KindView::Unknown
        }),
{
}

/// The kind a literal gives a variable it is assigned to.
pub open spec fn literal_kind(e: ExprView) -> Option<KindView> {
    match e {
        ExprView::String(_) => Some(KindView::String),
        ExprView::Number(_) => Some(KindView::Number),
        ExprView::Boolean(_) => Some(KindView::Bool),
        ExprView::ArrayLit(_, _) => Some(KindView::Array),
        _ => None,
    }
}

/// Assigning a literal to a variable with `=` records one more assignment to
/// that variable, of the literal's kind (a string, a number, a boolean or an
/// array), at the variable's place in the text; nothing else is recorded. The
/// assignment has the literal's kind, an array being referred to by the
/// variable's name.
pub proof fn law_literal_assignment(
    st: Map<Seq<char>, Seq<(KindView, Range<usize>)>>,
    target: Range<usize>,
    right: ExprView,
    rg: Range<usize>,
    d: Seq<u8>,
    sp: Range<usize>,
)
    requires
        literal_kind(right) is Some,
    ensures
        ({
            let e = ExprView::Binary(TokenKind::EqualsOp, Box::new(ExprView::Identifier(target)), Box::new(right), rg);
            let v = text_at(d, target);
            let k = literal_kind(right)->0;
            let r = vc_process(st, e, d, sp);
            &&& r.0 == st.insert(v, st[v].push((k, vc_range(sp, target))))
            &&& forall|n: Seq<char>| n != v ==> r.0[n] == st[n]
            &&& r.1 == if k is Array { KindView::Ref(v) } else { k }
        }),
{
    let k = literal_kind(right)->0;
    assert(vc_process(st, right, d, sp) == (st, k));
    assert(vc_assign(st, TokenKind::EqualsOp, right, d, sp) == (st, k));
}

/// The assignments once the first `n` expressions were gone through in order.
pub open spec fn vc_run(
    st: Map<Seq<char>, Seq<(KindView, Range<usize>)>>,
    es: Seq<ExprView>,
    n: int,
    d: Seq<u8>,
    sp: Range<usize>,
) -> Map<Seq<char>, Seq<(KindView, Range<usize>)>>
    decreases n,
{
    if n <= 0 {
        st
    } else {
        vc_process(vc_run(st, es, n - 1, d, sp), es[n - 1], d, sp).0
    }
}

impl<'a> VariableCollector<'a> {
    pub open spec fn len(&self) -> int {
        self.input.data@.len() as int
    }

    /// Gathers the assignments of the expressions; gives them with the input back.
    pub fn run(input: InputPresenter<'a>, start_pos: Range<usize>, ast: &Vec<ASTExpression>) -> (res: (AssignmentStore, InputPresenter<'a>))
        requires
            forall|i: int| 0 <= i < ast@.len() ==> wf_expr(#[trigger] ast@[i], input.data@.len() as int),
        ensures
            res.1 == input,
            store_view(res.0) == vc_run(
                Map::new(|k: Seq<char>| true, |k: Seq<char>| Seq::<(KindView, Range<usize>)>::empty()),
                expr_views(ast@),
                ast@.len() as int,
                input.data@,
                start_pos,
            ),
    {
        let mut collector = VariableCollector { collected: AssignmentStore::new(), input, start_pos };
        let ghost empty = Map::new(|k: Seq<char>| true, |k: Seq<char>| Seq::<(KindView, Range<usize>)>::empty());
        proof {
            assert(store_view(collector.collected) =~= empty) by {
                assert forall|k: Seq<char>| true implies #[trigger] store_view(collector.collected)[k] =~= empty[k] by {
                    assert(entry_index(collector.collected.0@, k).is_none());
                }
            }
            lemma_expr_views(ast@);
        }
        let mut i: usize = 0;
        while i < ast.len()
            invariant
                0 <= i <= ast@.len(),
                collector.input == input,
                collector.start_pos == start_pos,
                forall|j: int| 0 <= j < ast@.len() ==> wf_expr(#[trigger] ast@[j], input.data@.len() as int),
                expr_views(ast@).len() == ast@.len(),
                forall|j: int| 0 <= j < ast@.len() ==> #[trigger] expr_views(ast@)[j] == expr_view(ast@[j]),
                store_view(collector.collected) == vc_run(empty, expr_views(ast@), i as int, input.data@, start_pos),
            decreases ast@.len() - i,
        {
            collector.process_exp(&ast[i]);
            i = i + 1;
        }
        (collector.collected, collector.input)
    }

    /// A range of the javascript as a range of the whole text: shifted by the
    /// start position, its end by the shifted start (additions saturate).
    fn range(&self, other: &Range<usize>) -> (r: Range<usize>)
        ensures
            r.start == (if self.start_pos.start + other.start <= usize::MAX { self.start_pos.start + other.start } else { usize::MAX as int }),
            r.end == (if r.start + other.end <= usize::MAX { r.start + other.end } else { usize::MAX as int }),
            r == vc_range(self.start_pos, *other),
    {
        let start = self.start_pos.start.saturating_add(other.start);
        Range { start, end: start.saturating_add(other.end) }
    }

    /// The kind that an assignment with the operator gives its target.
    fn resolve_binary(&mut self, op: &TokenKind, right: &ASTExpression) -> (k: VariableKind)
        requires
            wf_expr(*right, old(self).len()),
        ensures
            final(self).input == old(self).input,
            final(self).start_pos == old(self).start_pos,
            store_grows(old(self).collected, final(self).collected),
            *op == TokenKind::PlusEqualsOp ==> k == (match *right {
                ASTExpression::String(_) => VariableKind::String,
                ASTExpression::Number(_) => VariableKind::Number,
                _ => VariableKind::Unknown,
            }),
            (*op == TokenKind::MinusEqualsOp || *op == TokenKind::StarEqualsOp || *op == TokenKind::SlashEqualsOp)
                ==> k == (if right is Number { VariableKind::Number } else { VariableKind::Unknown }),
            (store_view(final(self).collected), kind_view(k)) == vc_assign(
                store_view(old(self).collected),
                *op,
                expr_view(*right),
                old(self).input.data@,
                old(self).start_pos,
            ),
        decreases right, 1int,
    {
        proof {
            lemma_grows_refl(self.collected);
        }
        if *op == TokenKind::PlusEqualsOp {
            match right {
                ASTExpression::String(_) => VariableKind::String,
                ASTExpression::Number(_) => VariableKind::Number,
                _ => VariableKind::Unknown,
            }
        } else if *op == TokenKind::MinusEqualsOp || *op == TokenKind::StarEqualsOp || *op == TokenKind::SlashEqualsOp {
            if let ASTExpression::Number(_) = right {
                VariableKind::Number
            } else {
                VariableKind::Unknown
            }
        } else {
            self.process_exp(right)
        }
    }

    /// The name an accessor spells, where it is a plain name.
    fn get_string_from_accessor(&self, accessor: &ASTAccessContent) -> (r: Option<String>)
        requires
            accessor matches ASTAccessContent::Identifier(i) ==> i.range.start <= i.range.end <= self.len(),
        ensures
            accessor matches ASTAccessContent::Identifier(i) ==> r matches Some(s) && s@ == text_at(
                self.input.data@,
                i.range,
            ),
            accessor is Expression ==> r.is_none(),
    {
        match accessor {
            ASTAccessContent::Identifier(ident) => Some(self.input.from_range(&ident.range)),
            _ => None,
        }
    }

    /// The dotted name of a chain of property accesses on a variable, such as `a.b.c`.
    fn resolve_access(&self, access: &ASTAccess) -> (r: Option<String>)
        requires
            wf_expr(ASTExpression::Access(Box::new(*access)), self.len()),
        ensures
            match r {
                Some(s) => vc_dotted(expr_view(ASTExpression::Access(Box::new(*access))), self.input.data@) == Some(s@),
                None => vc_dotted(expr_view(ASTExpression::Access(Box::new(*access))), self.input.data@).is_none(),
            },
    {
        let ghost d = self.input.data@;
        let ghost whole = expr_view(ASTExpression::Access(Box::new(*access)));
        let mut collected: Vec<String> = Vec::new();
        match self.get_string_from_accessor(&access.accessor) {
            Some(s) => collected.push(s),
            None => { return None; },
        }
        proof {
            assert(strs_view(collected@) =~= seq![text_at(d, access.accessor->Identifier_0.range)]);
        }
        let mut left = &access.expression;
        loop
            invariant
                wf_expr(*left, self.len()),
                d == self.input.data@,
                strs_view(collected@).len() >= 1,
                whole == expr_view(ASTExpression::Access(Box::new(*access))),
                vc_dotted(whole, d) == match vc_dotted(expr_view(*left), d) {
                    Some(p) => Some(p + "."@ + rev_join(strs_view(collected@))),
                    None => None,
                },
            ensures
                !((*left) is Access),
            decreases *left,
        {
            match left {
                ASTExpression::Access(acc) => {
                    match self.get_string_from_accessor(&acc.accessor) {
                        Some(s) => {
                            let ghost before = strs_view(collected@);
                            collected.push(s);
                            proof {
                                assert(strs_view(collected@) =~= before.push(s@));
                                lemma_rev_join_push(before, s@);
                                let t = text_at(d, acc.accessor->Identifier_0.range);
                                match vc_dotted(expr_view(acc.expression), d) {
                                    Some(p) => {
                                        assert(p + "."@ + t + "."@ + rev_join(before) =~= p + "."@ + rev_join(strs_view(collected@)));
                                    },
                                    None => {},
                                }
                            }
                        },
                        None => { return None; },
                    }
                    left = &acc.expression;
                },
                _ => { break; },
            }
        }
        match left {
            ASTExpression::Identifier(ident) => {
                let ghost before = strs_view(collected@);
                let t = self.input.from_range(&ident.range);
                collected.push(t);
                proof {
                    assert(strs_view(collected@) =~= before.push(t@));
                    lemma_rev_join_push(before, t@);
                }
            },
            _ => { return None; },
        }
        let ghost cv = strs_view(collected@);
        let mut name = String::new();
        let mut i: usize = collected.len();
        proof {
            assert(name@ =~= rev_join(cv.subrange(i as int, cv.len() as int)));
        }
        while i > 0
            invariant
                i <= collected@.len(),
                cv == strs_view(collected@),
                cv.len() == collected@.len(),
                name@ == rev_join(cv.subrange(i as int, cv.len() as int)) + (if 0 < i < cv.len() { "."@ } else { Seq::<char>::empty() }),
            decreases i,
        {
            i = i - 1;
            let ghost old_name = name@;
            name.append(collected[i].as_str());
            if i > 0 {
                name.append(".");
            }
            proof {
                let sub = cv.subrange(i as int, cv.len() as int);
                assert(sub.drop_first() =~= cv.subrange(i + 1, cv.len() as int));
                assert(sub[0] == collected@[i as int]@);
                if sub.len() == 1 {
                    assert(cv.subrange(i + 1, cv.len() as int) =~= Seq::<Seq<char>>::empty());
                }
                assert(name@ =~= rev_join(sub) + (if 0 < i < cv.len() { "."@ } else { Seq::<char>::empty() }));
            }
        }
        proof {
            assert(cv.subrange(0, cv.len() as int) =~= cv);
        }
        Some(name)
    }

    /// Records an assignment to the target; gives the kind the target then has,
    /// or nothing where the target is no variable.
    fn add_variable(&mut self, name: &ASTExpression, kind: VariableKind) -> (r: Option<VariableKind>)
        requires
            wf_expr(*name, old(self).len()),
        ensures
            final(self).input == old(self).input,
            final(self).start_pos == old(self).start_pos,
            store_grows(old(self).collected, final(self).collected),
            name matches ASTExpression::Identifier(ident) ==> {
                let n = text_at(old(self).input.data@, ident.range);
                &&& assignments_of(final(self).collected.0@, n).len() == assignments_of(old(self).collected.0@, n).len() + 1
                &&& r.is_some()
            },
            !(name is Identifier || name is Access) ==> r.is_none(),
            (store_view(final(self).collected), opt_kind_view(r)) == vc_target(
                store_view(old(self).collected),
                expr_view(*name),
                kind_view(kind),
                old(self).input.data@,
                old(self).start_pos,
            ),
    {
        proof {
            lemma_grows_refl(self.collected);
        }
        match name {
            ASTExpression::Identifier(ident) => {
                let left_name = self.input.from_range(&ident.range);
                let is_compound = matches!(kind, VariableKind::Array | VariableKind::Mapping | VariableKind::Object);
                let range = self.range(&ident.range);
                let stored = kind.copy();
                let ghost before = self.collected;
                self.collected.insert(left_name.clone(), VariableAssignment { kind: stored, range });
                proof {
                    lemma_insert_grows(before, self.collected, left_name@);
                    lemma_kind_eq_view(stored, kind);
                    lemma_store_insert(before, self.collected, left_name@, VariableAssignment { kind: stored, range });
                }
                if is_compound {
                    Some(VariableKind::Ref(left_name))
                } else {
                    Some(kind)
                }
            },
            ASTExpression::Access(access) => {
                proof {
                    if access.accessor is Expression {
                        lemma_wf_range(access.accessor->Expression_0, self.len());
                    }
                }
                match self.resolve_access(access) {
                    Some(name) => {
                        let range = self.range(access.accessor.range());
                        let is_compound = matches!(kind, VariableKind::Array | VariableKind::Mapping | VariableKind::Object);
                        let stored = kind.copy();
                        let ghost before = self.collected;
                        self.collected.insert(name.clone(), VariableAssignment { kind: stored, range });
                        proof {
                            lemma_insert_grows(before, self.collected, name@);
                            lemma_kind_eq_view(stored, kind);
                            lemma_store_insert(before, self.collected, name@, VariableAssignment { kind: stored, range });
                        }
                        if is_compound {
                            Some(VariableKind::Ref(name))
                        } else {
                            Some(kind)
                        }
                    },
                    None => None,
                }
            },
            _ => None,
        }
    }

    /// Whether an accessor is a name of one of the methods that change an array.
    fn names_array_method(&self, accessor: &ASTAccessContent) -> (r: bool)
        requires
            accessor matches ASTAccessContent::Identifier(i) ==> i.range.start <= i.range.end <= self.len(),
        ensures
            r == (accessor matches ASTAccessContent::Identifier(i) && is_array_method(text_at(self.input.data@, i.range))),
    {
        match self.get_string_from_accessor(accessor) {
            Some(s) => is_array_method_name(s.as_str()),
            None => false,
        }
    }

    /// Whether an accessor is a name of one of the methods of a map.
    fn names_map_method(&self, accessor: &ASTAccessContent) -> (r: bool)
        requires
            accessor matches ASTAccessContent::Identifier(i) ==> i.range.start <= i.range.end <= self.len(),
        ensures
            r == (accessor matches ASTAccessContent::Identifier(i) && is_map_method(text_at(self.input.data@, i.range))),
    {
        match self.get_string_from_accessor(accessor) {
            Some(s) => {
                let t = s.as_str();
                str_eq(t, "set") || str_eq(t, "clear") || str_eq(t, "has") || str_eq(t, "get") || str_eq(t, "keys")
                    || str_eq(t, "values")
            },
            None => false,
        }
    }

    /// The kind of value an expression gives; records the assignments it makes.
    fn process_exp(&mut self, exp: &ASTExpression) -> (k: VariableKind)
        requires
            wf_expr(*exp, old(self).len()),
        ensures
            final(self).input == old(self).input,
            final(self).start_pos == old(self).start_pos,
            store_grows(old(self).collected, final(self).collected),
            exp is String ==> k == VariableKind::String,
            exp is Number ==> k == VariableKind::Number,
            exp is Boolean ==> k == VariableKind::Bool,
            exp is ArrayLit ==> k == VariableKind::Array,
            exp matches ASTExpression::Identifier(i) ==> (k matches VariableKind::Ref(n) && n@ == text_at(
                old(self).input.data@,
                i.range,
            )),
            exp is Call || exp is Unary || exp is New || exp is Ternary ==> k == VariableKind::Unknown,
            (store_view(final(self).collected), kind_view(k)) == vc_process(
                store_view(old(self).collected),
                expr_view(*exp),
                old(self).input.data@,
                old(self).start_pos,
            ),
        decreases exp, 0int,
    {
        let ghost s0 = self.collected;
        proof {
            lemma_grows_refl(s0);
        }
        let ghost d = self.input.data@;
        let ghost sp = self.start_pos;
        let ghost goal = vc_process(store_view(s0), expr_view(*exp), d, sp);
        match exp {
            ASTExpression::Binary(binary) => {
                let kind = self.resolve_binary(&binary.operator, &binary.right);
                let ghost s1 = self.collected;
                let added = self.add_variable(&binary.left, kind);
                let ghost s2 = self.collected;
                proof {
                    lemma_grows_trans(s0, s1, s2);
                }
                match added {
                    Some(kind) => {
                        assert((store_view(self.collected), kind_view(kind)) == goal);
                        kind
                    },
                    None => {
                        self.process_exp(&binary.left);
                        let ghost s3 = self.collected;
                        self.process_exp(&binary.right);
                        proof {
                            lemma_grows_trans(s0, s2, s3);
                            lemma_grows_trans(s0, s3, self.collected);
                        }
                        assert((store_view(self.collected), KindView::Unknown) == goal);
                        VariableKind::Unknown
                    },
                }
            },
            ASTExpression::String(_) => VariableKind::String,
            ASTExpression::Number(_) => VariableKind::Number,
            ASTExpression::Boolean(_) => VariableKind::Bool,
            ASTExpression::ArrayLit(_) => VariableKind::Array,
            ASTExpression::Identifier(ident) => VariableKind::Ref(self.input.from_range(&ident.range)),
            ASTExpression::Access(acc) => {
                let r = self.resolve_access(acc);
                proof {
                    if acc.accessor is Expression {
                        assert(vc_dotted(expr_view(*exp), d).is_none());
                    }
                }
                match r {
                    Some(name) => VariableKind::Ref(name),
                    None => VariableKind::Unknown,
                }
            },
            ASTExpression::Call(call) => {
                if let ASTExpression::Access(access) = &call.expression {
                    assert(wf_expr(call.expression, self.len()));
                    assert(wf_expr(access.expression, self.len()));
                    proof {
                        if access.accessor is Identifier {
                            assert(expr_view(call.expression) == ExprView::AccessName(
                                access.accessor->Identifier_0.range,
                                Box::new(expr_view(access.expression)),
                                access.range,
                            ));
                        } else {
                            assert(expr_view(call.expression) == ExprView::AccessExpr(
                                Box::new(expr_view(access.accessor->Expression_0)),
                                Box::new(expr_view(access.expression)),
                                access.range,
                            ));
                        }
                    }
                    if self.names_array_method(&access.accessor) {
                        self.add_variable(&access.expression, VariableKind::Array);
                    } else if self.names_map_method(&access.accessor) {
                        self.add_variable(&access.expression, VariableKind::Mapping);
                    }
                    assert((store_view(self.collected), KindView::Unknown) == goal);
                }
                VariableKind::Unknown
            },
            ASTExpression::Unary(unary) => {
                self.process_exp(&unary.expression);
                VariableKind::Unknown
            },
            ASTExpression::New(new) => {
                self.process_exp(&new.expression);
                VariableKind::Unknown
            },
            ASTExpression::Ternary(ternary) => {
                self.process_exp(&ternary.condition);
                let ghost s1 = self.collected;
                self.process_exp(&ternary.left);
                let ghost s2 = self.collected;
                self.process_exp(&ternary.right);
                proof {
                    lemma_grows_trans(s0, s1, s2);
                    lemma_grows_trans(s0, s2, self.collected);
                }
                VariableKind::Unknown
            },
        }
    }
}

pub proof fn lemma_grows_trans(a: AssignmentStore, b: AssignmentStore, c: AssignmentStore)
    requires
        store_grows(a, b),
        store_grows(b, c),
    ensures
        store_grows(a, c),
{
    assert forall|k: Seq<char>| #[trigger] assignments_of(c.0@, k).len() >= assignments_of(a.0@, k).len()
        && assignments_of(c.0@, k).take(assignments_of(a.0@, k).len() as int) == assignments_of(a.0@, k) by {
        let sa = assignments_of(a.0@, k);
        let sb = assignments_of(b.0@, k);
        let sc = assignments_of(c.0@, k);
        assert(sb.len() >= sa.len() && sb.take(sa.len() as int) == sa);
        assert(sc.len() >= sb.len() && sc.take(sb.len() as int) == sb);
        assert(sc.take(sa.len() as int) =~= sb.take(sa.len() as int));
    }
}

pub proof fn lemma_grows_refl(a: AssignmentStore)
    ensures
        store_grows(a, a),
{
    assert forall|k: Seq<char>| #[trigger] assignments_of(a.0@, k).len() >= assignments_of(a.0@, k).len()
        && assignments_of(a.0@, k).take(assignments_of(a.0@, k).len() as int) == assignments_of(a.0@, k) by {
        assert(assignments_of(a.0@, k).take(assignments_of(a.0@, k).len() as int) =~= assignments_of(a.0@, k));
    }
}

/// A well formed expression covers a range within the input.
pub proof fn lemma_wf_range(e: ASTExpression, len: int)
    requires
        wf_expr(e, len),
    ensures
        e.spec_range().start <= e.spec_range().end <= len,
{
}

pub proof fn lemma_insert_grows(a: AssignmentStore, b: AssignmentStore, key: Seq<char>)
    requires
        assignments_of(b.0@, key) == assignments_of(a.0@, key).push(
            assignments_of(b.0@, key).last(),
        ),
        forall|k: Seq<char>| k != key ==> #[trigger] assignments_of(b.0@, k) == assignments_of(a.0@, k),
    ensures
        store_grows(a, b),
{
    assert forall|k: Seq<char>| #[trigger] assignments_of(b.0@, k).len() >= assignments_of(a.0@, k).len()
        && assignments_of(b.0@, k).take(assignments_of(a.0@, k).len() as int) == assignments_of(a.0@, k) by {
        if k == key {
            assert(assignments_of(b.0@, k).take(assignments_of(a.0@, k).len() as int) =~= assignments_of(a.0@, k));
        } else {
            assert(assignments_of(b.0@, k).take(assignments_of(a.0@, k).len() as int) =~= assignments_of(a.0@, k));
        }
    }
}

/// The text of each string.
pub open spec fn strs_view(v: Seq<String>) -> Seq<Seq<char>> {
    Seq::new(v.len(), |i: int| v[i]@)
}

/// Adding a name last puts it first, before a dot.
pub proof fn lemma_rev_join_push(c: Seq<Seq<char>>, t: Seq<char>)
    requires
        c.len() >= 1,
    ensures
        rev_join(c.push(t)) == t + "."@ + rev_join(c),
    decreases c.len(),
{
    assert(c.push(t)[0] == c[0]);
    if c.len() == 1 {
        assert(c.push(t).drop_first() =~= seq![t]);
        assert(rev_join(seq![t]) == t);
    } else {
        assert(c.push(t).drop_first() =~= c.drop_first().push(t));
        lemma_rev_join_push(c.drop_first(), t);
        assert(t + "."@ + rev_join(c.drop_first()) + "."@ + c[0] =~= t + "."@ + (rev_join(c.drop_first()) + "."@ + c[0]));
    }
}

/// Kinds that are the same look the same.
pub proof fn lemma_kind_eq_view(a: VariableKind, b: VariableKind)
    requires
        kind_eq(a, b),
    ensures
        kind_view(a) == kind_view(b),
{
}

/// One more assignment under `key` is one more in the view, and nothing else changes.
pub proof fn lemma_store_insert(a: AssignmentStore, b: AssignmentStore, key: Seq<char>, x: VariableAssignment)
    requires
        assignments_of(b.0@, key) == assignments_of(a.0@, key).push(x),
        forall|k: Seq<char>| k != key ==> #[trigger] assignments_of(b.0@, k) == assignments_of(a.0@, k),
    ensures
        store_view(b) == store_view(a).insert(key, store_view(a)[key].push((kind_view(x.kind), x.range))),
{
    let va = store_view(a);
    let vb = store_view(b);
    assert forall|k: Seq<char>| true implies #[trigger] vb[k] =~= va.insert(key, va[key].push((kind_view(x.kind), x.range)))[k] by {
        if k == key {
            assert(assignments_of(b.0@, k).map_values(|a: VariableAssignment| (kind_view(a.kind), a.range)) =~= assignments_of(
                a.0@,
                k,
            ).map_values(|a: VariableAssignment| (kind_view(a.kind), a.range)).push((kind_view(x.kind), x.range)));
        }
    }
    assert(vb =~= va.insert(key, va[key].push((kind_view(x.kind), x.range))));
}

} // verus!
