use vstd::prelude::*;
use crate::diagnostics::location::Range;
use crate::js_parser::tokenizer::TokenKind;

verus! {

/// A node that a `Visitor` can walk.
pub trait Visitable {
    /// Hands the node to the visitor's method for its kind.
    fn visit<T: Visitor>(&self, visitor: &mut T);

    /// Hands each child of the node to the visitor.
    fn visit_each_child<T: Visitor>(&self, visitor: &mut T);
}

/// A node that a `MutVisitor` can rebuild.
pub trait MutVisitable<Item>: Clone {
    fn visit_mut<T: MutVisitor>(&self, visitor: &mut T) -> Item;

    fn visit_each_child_mut<T: MutVisitor>(&self, visitor: &mut T) -> Item;
}

/// Walks javascript expressions. `expression` hands an expression to the
/// method for its kind; what each method makes of the visitor is said by the
/// spec function of the same kind, which leaves the visitor as it is unless an
/// implementation says otherwise.
pub trait Visitor: Sized {
    fn expression(&mut self, exp: &ASTExpression)
        ensures
            match *exp {
                ASTExpression::String(x) => old(self).walked_string(x, *final(self)),
                ASTExpression::Number(x) => old(self).walked_number(x, *final(self)),
                ASTExpression::Boolean(x) => old(self).walked_boolean(x, *final(self)),
                ASTExpression::Identifier(x) => old(self).walked_identifier(x, *final(self)),
                ASTExpression::Binary(x) => old(self).walked_binary(*x, *final(self)),
                ASTExpression::Unary(x) => old(self).walked_unary(*x, *final(self)),
                ASTExpression::Call(x) => old(self).walked_call(*x, *final(self)),
                ASTExpression::ArrayLit(x) => old(self).walked_array(x, *final(self)),
                ASTExpression::Access(x) => old(self).walked_access(*x, *final(self)),
                ASTExpression::New(x) => old(self).walked_new_exp(*x, *final(self)),
                ASTExpression::Ternary(x) => old(self).walked_ternary(*x, *final(self)),
            },
    {
        match exp {
            ASTExpression::String(e) => self.string(e),
            ASTExpression::Number(e) => self.number(e),
            ASTExpression::Boolean(e) => self.boolean(e),
            ASTExpression::Identifier(e) => self.identifier(e),
            ASTExpression::Binary(e) => self.binary(e),
            ASTExpression::Unary(e) => self.unary(e),
            ASTExpression::Call(e) => self.call(e),
            ASTExpression::ArrayLit(e) => self.array(e),
            ASTExpression::Access(e) => self.access(e),
            ASTExpression::New(e) => self.new_exp(e),
            ASTExpression::Ternary(e) => self.ternary(e),
        }
    }

    fn optional_expression(&mut self, exp: &Option<ASTExpression>)
        ensures
            exp.is_none() ==> *final(self) == *old(self),
            exp.is_some() ==> match exp->Some_0 {
                    ASTExpression::String(x) => old(self).walked_string(x, *final(self)),
                    ASTExpression::Number(x) => old(self).walked_number(x, *final(self)),
                    ASTExpression::Boolean(x) => old(self).walked_boolean(x, *final(self)),
                    ASTExpression::Identifier(x) => old(self).walked_identifier(x, *final(self)),
                    ASTExpression::Binary(x) => old(self).walked_binary(*x, *final(self)),
                    ASTExpression::Unary(x) => old(self).walked_unary(*x, *final(self)),
                    ASTExpression::Call(x) => old(self).walked_call(*x, *final(self)),
                    ASTExpression::ArrayLit(x) => old(self).walked_array(x, *final(self)),
                    ASTExpression::Access(x) => old(self).walked_access(*x, *final(self)),
                    ASTExpression::New(x) => old(self).walked_new_exp(*x, *final(self)),
                    ASTExpression::Ternary(x) => old(self).walked_ternary(*x, *final(self)),
                },
    {
        if let Some(exp) = exp {
            match exp {
                ASTExpression::String(e) => self.string(e),
                ASTExpression::Number(e) => self.number(e),
                ASTExpression::Boolean(e) => self.boolean(e),
                ASTExpression::Identifier(e) => self.identifier(e),
                ASTExpression::Binary(e) => self.binary(e),
                ASTExpression::Unary(e) => self.unary(e),
                ASTExpression::Call(e) => self.call(e),
                ASTExpression::ArrayLit(e) => self.array(e),
                ASTExpression::Access(e) => self.access(e),
                ASTExpression::New(e) => self.new_exp(e),
                ASTExpression::Ternary(e) => self.ternary(e),
            }
        }
    }

    /// Whether walking the list `exp` may leave this visitor as `after`.
    open spec fn walked_list<T>(&self, exp: Seq<T>, after: Self) -> bool {
        after == *self
    }

    fn list<T>(&mut self, exp: &Vec<T>)
        ensures
            old(self).walked_list(exp@, *final(self)),
    ;

    /// Whether walking `exp` may leave this visitor as `after`.
    open spec fn walked_string(&self, exp: ASTString, after: Self) -> bool {
        after == *self
    }

    fn string(&mut self, exp: &ASTString)
        ensures
            old(self).walked_string(*exp, *final(self)),
    ;

    /// Whether walking `exp` may leave this visitor as `after`.
    open spec fn walked_number(&self, exp: ASTNumber, after: Self) -> bool {
        after == *self
    }

    fn number(&mut self, exp: &ASTNumber)
        ensures
            old(self).walked_number(*exp, *final(self)),
    ;

    /// Whether walking `exp` may leave this visitor as `after`.
    open spec fn walked_boolean(&self, exp: ASTBoolean, after: Self) -> bool {
        after == *self
    }

    fn boolean(&mut self, exp: &ASTBoolean)
        ensures
            old(self).walked_boolean(*exp, *final(self)),
    ;

    /// Whether walking `exp` may leave this visitor as `after`.
    open spec fn walked_identifier(&self, exp: ASTIdentifier, after: Self) -> bool {
        after == *self
    }

    fn identifier(&mut self, exp: &ASTIdentifier)
        ensures
            old(self).walked_identifier(*exp, *final(self)),
    ;

    /// Whether walking `exp` may leave this visitor as `after`.
    open spec fn walked_array(&self, exp: ASTArray, after: Self) -> bool {
        after == *self
    }

    fn array(&mut self, exp: &ASTArray)
        ensures
            old(self).walked_array(*exp, *final(self)),
    ;

    /// Whether walking `exp` may leave this visitor as `after`.
    open spec fn walked_call(&self, exp: ASTCall, after: Self) -> bool {
        after == *self
    }

    fn call(&mut self, exp: &ASTCall)
        ensures
            old(self).walked_call(*exp, *final(self)),
    ;

    /// Whether walking `exp` may leave this visitor as `after`.
    open spec fn walked_binary(&self, exp: ASTBinary, after: Self) -> bool {
        after == *self
    }

    fn binary(&mut self, exp: &ASTBinary)
        ensures
            old(self).walked_binary(*exp, *final(self)),
    ;

    /// Whether walking `exp` may leave this visitor as `after`.
    open spec fn walked_unary(&self, exp: ASTUnary, after: Self) -> bool {
        after == *self
    }

    fn unary(&mut self, exp: &ASTUnary)
        ensures
            old(self).walked_unary(*exp, *final(self)),
    ;

    /// Whether walking `exp` may leave this visitor as `after`.
    open spec fn walked_access(&self, exp: ASTAccess, after: Self) -> bool {
        after == *self
    }

    fn access(&mut self, exp: &ASTAccess)
        ensures
            old(self).walked_access(*exp, *final(self)),
    ;

    /// Whether walking `exp` may leave this visitor as `after`.
    open spec fn walked_new_exp(&self, exp: ASTNew, after: Self) -> bool {
        after == *self
    }

    fn new_exp(&mut self, exp: &ASTNew)
        ensures
            old(self).walked_new_exp(*exp, *final(self)),
    ;

    /// Whether walking `exp` may leave this visitor as `after`.
    open spec fn walked_ternary(&self, exp: ASTTernary, after: Self) -> bool {
        after == *self
    }

    fn ternary(&mut self, exp: &ASTTernary)
        ensures
            old(self).walked_ternary(*exp, *final(self)),
    ;

    /// Whether walking `exp` may leave this visitor as `after`.
    open spec fn walked_string_literal_part(&self, exp: ASTStringLiteralPart, after: Self) -> bool {
        after == *self
    }

    fn string_literal_part(&mut self, exp: &ASTStringLiteralPart)
        ensures
            old(self).walked_string_literal_part(*exp, *final(self)),
    ;

    /// Whether walking `exp` may leave this visitor as `after`.
    open spec fn walked_string_literal(&self, exp: ASTStringLiteral, after: Self) -> bool {
        after == *self
    }

    fn string_literal(&mut self, exp: &ASTStringLiteral)
        ensures
            old(self).walked_string_literal(*exp, *final(self)),
    ;
}

/// Whether walking the expression `e` may leave the visitor `v` as `after`:
/// what the method for its kind does with its node.
pub open spec fn walked<T: Visitor>(v: T, e: ASTExpression, after: T) -> bool {
    match e {
        ASTExpression::String(x) => v.walked_string(x, after),
        ASTExpression::Number(x) => v.walked_number(x, after),
        ASTExpression::Boolean(x) => v.walked_boolean(x, after),
        ASTExpression::Identifier(x) => v.walked_identifier(x, after),
        ASTExpression::Binary(x) => v.walked_binary(*x, after),
        ASTExpression::Unary(x) => v.walked_unary(*x, after),
        ASTExpression::Call(x) => v.walked_call(*x, after),
        ASTExpression::ArrayLit(x) => v.walked_array(x, after),
        ASTExpression::Access(x) => v.walked_access(*x, after),
        ASTExpression::New(x) => v.walked_new_exp(*x, after),
        ASTExpression::Ternary(x) => v.walked_ternary(*x, after),
    }
}

/// Whether handing the children of the expression `e` to the visitor `v`, one
/// after the other, may leave it as `after`.
pub open spec fn expr_children_walked<T: Visitor>(e: ASTExpression, v: T, after: T) -> bool
    decreases e,
{
    match e {
        ASTExpression::String(_) => after == v,
        ASTExpression::Number(_) => after == v,
        ASTExpression::Boolean(_) => after == v,
        ASTExpression::Identifier(_) => after == v,
        ASTExpression::Binary(x) => exists|mid: T| #[trigger] walked(v, x.left, mid) && walked(mid, x.right, after),
        ASTExpression::Unary(x) => walked(v, x.expression, after),
        ASTExpression::Call(x) => exists|mid: T| #[trigger] walked(v, x.expression, mid) && mid.walked_list(x.arguments@, after),
        ASTExpression::ArrayLit(x) => v.walked_list(x.elements@, after),
        ASTExpression::Access(x) => walked(v, x.expression, after),
        ASTExpression::New(x) => exists|mid: T| #[trigger] v.walked_list(x.arguments@, mid) && walked(mid, x.expression, after),
        ASTExpression::Ternary(x) => exists|m1: T, m2: T|
            #[trigger] walked(v, x.condition, m1) && #[trigger] walked(m1, x.left, m2) && walked(m2, x.right, after),
    }
}

/// Which kind of expression `e` is, by the order of the variants.
pub open spec fn expr_kind(e: ASTExpression) -> int {
    match e {
        ASTExpression::String(_) => 0,
        ASTExpression::Number(_) => 1,
        ASTExpression::Boolean(_) => 2,
        ASTExpression::Identifier(_) => 3,
        ASTExpression::Binary(_) => 4,
        ASTExpression::Unary(_) => 5,
        ASTExpression::Call(_) => 6,
        ASTExpression::ArrayLit(_) => 7,
        ASTExpression::Access(_) => 8,
        ASTExpression::New(_) => 9,
        ASTExpression::Ternary(_) => 10,
    }
}

/// Rebuilds javascript expressions. `expression` hands an expression to the
/// method for its kind; what each method gives back is said by the spec
/// function of the same kind, which gives the node back as it is unless an
/// implementation says otherwise.
pub trait MutVisitor: Sized {
    fn expression(&mut self, exp: &ASTExpression) -> (r: ASTExpression)
        ensures
            match *exp {
                ASTExpression::String(x) => r == ASTExpression::String(old(self).rebuilt_string(x)),
                ASTExpression::Number(x) => r == ASTExpression::Number(old(self).rebuilt_number(x)),
                ASTExpression::Boolean(x) => r == ASTExpression::Boolean(old(self).rebuilt_boolean(x)),
                ASTExpression::Identifier(x) => r == ASTExpression::Identifier(old(self).rebuilt_identifier(x)),
                ASTExpression::Binary(x) => expr_kind(r) == expr_kind(*exp) && expr_view(r) == expr_view(ASTExpression::Binary(Box::new(old(self).rebuilt_binary(*x)))),
                ASTExpression::Unary(x) => expr_kind(r) == expr_kind(*exp) && expr_view(r) == expr_view(ASTExpression::Unary(Box::new(old(self).rebuilt_unary(*x)))),
                ASTExpression::Call(x) => expr_kind(r) == expr_kind(*exp) && expr_view(r) == expr_view(ASTExpression::Call(Box::new(old(self).rebuilt_call(*x)))),
                ASTExpression::Access(x) => expr_kind(r) == expr_kind(*exp) && expr_view(r) == expr_view(ASTExpression::Access(Box::new(old(self).rebuilt_access(*x)))),
                ASTExpression::New(x) => expr_kind(r) == expr_kind(*exp) && expr_view(r) == expr_view(ASTExpression::New(Box::new(old(self).rebuilt_new_exp(*x)))),
                ASTExpression::Ternary(x) => expr_kind(r) == expr_kind(*exp) && expr_view(r) == expr_view(ASTExpression::Ternary(Box::new(old(self).rebuilt_ternary(*x)))),
                ASTExpression::ArrayLit(x) => expr_kind(r) == expr_kind(*exp) && expr_view(r) == expr_view(ASTExpression::ArrayLit(old(self).rebuilt_array(x))),
            },
    {
        match exp {
            ASTExpression::String(e) => ASTExpression::String(self.string(e)),
            ASTExpression::Number(e) => ASTExpression::Number(self.number(e)),
            ASTExpression::Boolean(e) => ASTExpression::Boolean(self.boolean(e)),
            ASTExpression::Identifier(e) => ASTExpression::Identifier(self.identifier(e)),
            ASTExpression::Binary(e) => ASTExpression::Binary(Box::new(self.binary(e))),
            ASTExpression::Unary(e) => ASTExpression::Unary(Box::new(self.unary(e))),
            ASTExpression::Call(e) => ASTExpression::Call(Box::new(self.call(e))),
            ASTExpression::ArrayLit(e) => ASTExpression::ArrayLit(self.array(e)),
            ASTExpression::Access(e) => ASTExpression::Access(Box::new(self.access(e))),
            ASTExpression::New(e) => ASTExpression::New(Box::new(self.new_exp(e))),
            ASTExpression::Ternary(e) => ASTExpression::Ternary(Box::new(self.ternary(e))),
        }
    }

    fn optional_expression(&mut self, exp: &Option<ASTExpression>) -> (r: Option<ASTExpression>)
        ensures
            exp.is_none() ==> r.is_none(),
            exp.is_some() ==> r.is_some() && match exp->Some_0 {
                    ASTExpression::String(x) => r->Some_0 == ASTExpression::String(old(self).rebuilt_string(x)),
                    ASTExpression::Number(x) => r->Some_0 == ASTExpression::Number(old(self).rebuilt_number(x)),
                    ASTExpression::Boolean(x) => r->Some_0 == ASTExpression::Boolean(old(self).rebuilt_boolean(x)),
                    ASTExpression::Identifier(x) => r->Some_0 == ASTExpression::Identifier(old(self).rebuilt_identifier(x)),
                    ASTExpression::Binary(x) => expr_kind(r->Some_0) == expr_kind(exp->Some_0) && expr_view(r->Some_0) == expr_view(ASTExpression::Binary(Box::new(old(self).rebuilt_binary(*x)))),
                    ASTExpression::Unary(x) => expr_kind(r->Some_0) == expr_kind(exp->Some_0) && expr_view(r->Some_0) == expr_view(ASTExpression::Unary(Box::new(old(self).rebuilt_unary(*x)))),
                    ASTExpression::Call(x) => expr_kind(r->Some_0) == expr_kind(exp->Some_0) && expr_view(r->Some_0) == expr_view(ASTExpression::Call(Box::new(old(self).rebuilt_call(*x)))),
                    ASTExpression::Access(x) => expr_kind(r->Some_0) == expr_kind(exp->Some_0) && expr_view(r->Some_0) == expr_view(ASTExpression::Access(Box::new(old(self).rebuilt_access(*x)))),
                    ASTExpression::New(x) => expr_kind(r->Some_0) == expr_kind(exp->Some_0) && expr_view(r->Some_0) == expr_view(ASTExpression::New(Box::new(old(self).rebuilt_new_exp(*x)))),
                    ASTExpression::Ternary(x) => expr_kind(r->Some_0) == expr_kind(exp->Some_0) && expr_view(r->Some_0) == expr_view(ASTExpression::Ternary(Box::new(old(self).rebuilt_ternary(*x)))),
                    ASTExpression::ArrayLit(x) => expr_kind(r->Some_0) == expr_kind(exp->Some_0) && expr_view(r->Some_0) == expr_view(ASTExpression::ArrayLit(old(self).rebuilt_array(x))),
                },
    {
        match exp {
            Some(exp) => Some(match exp {
                ASTExpression::String(e) => ASTExpression::String(self.string(e)),
                ASTExpression::Number(e) => ASTExpression::Number(self.number(e)),
                ASTExpression::Boolean(e) => ASTExpression::Boolean(self.boolean(e)),
                ASTExpression::Identifier(e) => ASTExpression::Identifier(self.identifier(e)),
                ASTExpression::Binary(e) => ASTExpression::Binary(Box::new(self.binary(e))),
                ASTExpression::Unary(e) => ASTExpression::Unary(Box::new(self.unary(e))),
                ASTExpression::Call(e) => ASTExpression::Call(Box::new(self.call(e))),
                ASTExpression::ArrayLit(e) => ASTExpression::ArrayLit(self.array(e)),
                ASTExpression::Access(e) => ASTExpression::Access(Box::new(self.access(e))),
                ASTExpression::New(e) => ASTExpression::New(Box::new(self.new_exp(e))),
                ASTExpression::Ternary(e) => ASTExpression::Ternary(Box::new(self.ternary(e))),
            }),
            None => None,
        }
    }

    fn list<T: Clone>(&mut self, exp: &Vec<T>) -> Vec<T> {
        exp.clone()
    }

    /// What rebuilding `exp` gives.
    open spec fn rebuilt_string(&self, exp: ASTString) -> ASTString {
        exp
    }

    fn string(&mut self, exp: &ASTString) -> (r: ASTString)
        ensures
            r == old(self).rebuilt_string(*exp),
    ;

    /// What rebuilding `exp` gives.
    open spec fn rebuilt_number(&self, exp: ASTNumber) -> ASTNumber {
        exp
    }

    fn number(&mut self, exp: &ASTNumber) -> (r: ASTNumber)
        ensures
            r == old(self).rebuilt_number(*exp),
    ;

    /// What rebuilding `exp` gives.
    open spec fn rebuilt_boolean(&self, exp: ASTBoolean) -> ASTBoolean {
        exp
    }

    fn boolean(&mut self, exp: &ASTBoolean) -> (r: ASTBoolean)
        ensures
            r == old(self).rebuilt_boolean(*exp),
    ;

    /// What rebuilding `exp` gives.
    open spec fn rebuilt_identifier(&self, exp: ASTIdentifier) -> ASTIdentifier {
        exp
    }

    fn identifier(&mut self, exp: &ASTIdentifier) -> (r: ASTIdentifier)
        ensures
            r == old(self).rebuilt_identifier(*exp),
    ;

    /// What rebuilding `exp` gives.
    open spec fn rebuilt_binary(&self, exp: ASTBinary) -> ASTBinary {
        exp
    }

    fn binary(&mut self, exp: &ASTBinary) -> (r: ASTBinary)
        ensures
            expr_view(ASTExpression::Binary(Box::new(r))) == expr_view(ASTExpression::Binary(Box::new(old(self).rebuilt_binary(*exp)))),
    ;

    /// What rebuilding `exp` gives.
    open spec fn rebuilt_unary(&self, exp: ASTUnary) -> ASTUnary {
        exp
    }

    fn unary(&mut self, exp: &ASTUnary) -> (r: ASTUnary)
        ensures
            expr_view(ASTExpression::Unary(Box::new(r))) == expr_view(ASTExpression::Unary(Box::new(old(self).rebuilt_unary(*exp)))),
    ;

    /// What rebuilding `exp` gives.
    open spec fn rebuilt_call(&self, exp: ASTCall) -> ASTCall {
        exp
    }

    fn call(&mut self, exp: &ASTCall) -> (r: ASTCall)
        ensures
            expr_view(ASTExpression::Call(Box::new(r))) == expr_view(ASTExpression::Call(Box::new(old(self).rebuilt_call(*exp)))),
    ;

    /// What rebuilding `exp` gives.
    open spec fn rebuilt_access(&self, exp: ASTAccess) -> ASTAccess {
        exp
    }

    fn access(&mut self, exp: &ASTAccess) -> (r: ASTAccess)
        ensures
            expr_view(ASTExpression::Access(Box::new(r))) == expr_view(ASTExpression::Access(Box::new(old(self).rebuilt_access(*exp)))),
    ;

    /// What rebuilding `exp` gives.
    open spec fn rebuilt_new_exp(&self, exp: ASTNew) -> ASTNew {
        exp
    }

    fn new_exp(&mut self, exp: &ASTNew) -> (r: ASTNew)
        ensures
            expr_view(ASTExpression::New(Box::new(r))) == expr_view(ASTExpression::New(Box::new(old(self).rebuilt_new_exp(*exp)))),
    ;

    /// What rebuilding `exp` gives.
    open spec fn rebuilt_ternary(&self, exp: ASTTernary) -> ASTTernary {
        exp
    }

    fn ternary(&mut self, exp: &ASTTernary) -> (r: ASTTernary)
        ensures
            expr_view(ASTExpression::Ternary(Box::new(r))) == expr_view(ASTExpression::Ternary(Box::new(old(self).rebuilt_ternary(*exp)))),
    ;

    /// What rebuilding `exp` gives.
    open spec fn rebuilt_array(&self, exp: ASTArray) -> ASTArray {
        exp
    }

    fn array(&mut self, exp: &ASTArray) -> (r: ASTArray)
        ensures
            expr_view(ASTExpression::ArrayLit(r)) == expr_view(ASTExpression::ArrayLit(old(self).rebuilt_array(*exp))),
    ;

    /// What rebuilding `exp` gives.
    open spec fn rebuilt_string_literal_part(&self, exp: ASTStringLiteralPart) -> ASTStringLiteralPart {
        exp
    }

    fn string_literal_part(&mut self, exp: &ASTStringLiteralPart) -> (r: ASTStringLiteralPart)
        ensures
            same_part(r, old(self).rebuilt_string_literal_part(*exp)),
    ;

    /// What rebuilding `exp` gives.
    open spec fn rebuilt_string_literal(&self, exp: ASTStringLiteral) -> ASTStringLiteral {
        exp
    }

    fn string_literal(&mut self, exp: &ASTStringLiteral) -> (r: ASTStringLiteral)
        ensures
            same_literal(r, old(self).rebuilt_string_literal(*exp)),
    ;
}

#[derive(Debug)]
pub struct ASTString {
    pub range: Range<usize>,
}

impl Visitable for ASTString {
    fn visit<T: Visitor>(&self, visitor: &mut T)
        ensures
            old(visitor).walked_string(*self, *final(visitor)),
    {
        visitor.string(self);
    }

    fn visit_each_child<T: Visitor>(&self, _visitor: &mut T)
        ensures
            *final(_visitor) == *old(_visitor),
    {
    }
}

impl MutVisitable<ASTString> for ASTString {
    fn visit_mut<T: MutVisitor>(&self, visitor: &mut T) -> (r: ASTString)
        ensures
            r == old(visitor).rebuilt_string(*self),
    {
        visitor.string(self)
    }

    fn visit_each_child_mut<T: MutVisitor>(&self, _visitor: &mut T) -> (r: ASTString)
        ensures
            r == *self,
    {
        ASTString { range: self.range }
    }
}

#[derive(Debug)]
pub struct ASTNumber {
    pub range: Range<usize>,
}

impl Visitable for ASTNumber {
    fn visit<T: Visitor>(&self, visitor: &mut T)
        ensures
            old(visitor).walked_number(*self, *final(visitor)),
    {
        visitor.number(self);
    }

    fn visit_each_child<T: Visitor>(&self, _visitor: &mut T)
        ensures
            *final(_visitor) == *old(_visitor),
    {
    }
}

impl MutVisitable<ASTNumber> for ASTNumber {
    fn visit_mut<T: MutVisitor>(&self, visitor: &mut T) -> (r: ASTNumber)
        ensures
            r == old(visitor).rebuilt_number(*self),
    {
        visitor.number(self)
    }

    fn visit_each_child_mut<T: MutVisitor>(&self, _visitor: &mut T) -> (r: ASTNumber)
        ensures
            r == *self,
    {
        ASTNumber { range: self.range }
    }
}

#[derive(Debug)]
pub struct ASTBoolean {
    pub range: Range<usize>,
}

impl Visitable for ASTBoolean {
    fn visit<T: Visitor>(&self, visitor: &mut T)
        ensures
            old(visitor).walked_boolean(*self, *final(visitor)),
    {
        visitor.boolean(self);
    }

    fn visit_each_child<T: Visitor>(&self, _visitor: &mut T)
        ensures
            *final(_visitor) == *old(_visitor),
    {
    }
}

impl MutVisitable<ASTBoolean> for ASTBoolean {
    fn visit_mut<T: MutVisitor>(&self, visitor: &mut T) -> (r: ASTBoolean)
        ensures
            r == old(visitor).rebuilt_boolean(*self),
    {
        visitor.boolean(self)
    }

    fn visit_each_child_mut<T: MutVisitor>(&self, _visitor: &mut T) -> (r: ASTBoolean)
        ensures
            r == *self,
    {
        ASTBoolean { range: self.range }
    }
}

#[derive(Debug)]
pub struct ASTIdentifier {
    pub range: Range<usize>,
}

impl Visitable for ASTIdentifier {
    fn visit<T: Visitor>(&self, visitor: &mut T)
        ensures
            old(visitor).walked_identifier(*self, *final(visitor)),
    {
        visitor.identifier(self);
    }

    fn visit_each_child<T: Visitor>(&self, _visitor: &mut T)
        ensures
            *final(_visitor) == *old(_visitor),
    {
    }
}

impl MutVisitable<ASTIdentifier> for ASTIdentifier {
    fn visit_mut<T: MutVisitor>(&self, visitor: &mut T) -> (r: ASTIdentifier)
        ensures
            r == old(visitor).rebuilt_identifier(*self),
    {
        visitor.identifier(self)
    }

    fn visit_each_child_mut<T: MutVisitor>(&self, _visitor: &mut T) -> (r: ASTIdentifier)
        ensures
            r == *self,
    {
        ASTIdentifier { range: self.range }
    }
}

#[derive(Debug)]
pub struct ASTArray {
    pub elements: Vec<ASTExpression>,
    pub range: Range<usize>,
}

impl Visitable for ASTArray {
    fn visit<T: Visitor>(&self, visitor: &mut T)
        ensures
            old(visitor).walked_array(*self, *final(visitor)),
    {
        visitor.array(self);
    }

    fn visit_each_child<T: Visitor>(&self, _visitor: &mut T)
        ensures
            old(_visitor).walked_list(self.elements@, *final(_visitor)),
    {
        _visitor.list(&self.elements);
    }
}

impl MutVisitable<ASTArray> for ASTArray {
    fn visit_mut<T: MutVisitor>(&self, visitor: &mut T) -> (r: ASTArray)
        ensures
            expr_view(ASTExpression::ArrayLit(r)) == expr_view(ASTExpression::ArrayLit(old(visitor).rebuilt_array(*self))),
    {
        visitor.array(self)
    }

    fn visit_each_child_mut<T: MutVisitor>(&self, _visitor: &mut T) -> ASTArray {
        let elements = _visitor.list::<ASTExpression>(&self.elements);
        ASTArray { elements, range: self.range }
    }
}

#[derive(Debug)]
pub struct ASTCall {
    pub expression: ASTExpression,
    pub arguments: Vec<ASTExpression>,
    pub range: Range<usize>,
}

impl Visitable for ASTCall {
    fn visit<T: Visitor>(&self, visitor: &mut T)
        ensures
            old(visitor).walked_call(*self, *final(visitor)),
    {
        visitor.call(self);
    }

    fn visit_each_child<T: Visitor>(&self, _visitor: &mut T)
        ensures
            exists|mid: T| #[trigger] walked(*old(_visitor), self.expression, mid) && mid.walked_list(self.arguments@, *final(_visitor)),
    {
        let ghost v0 = *_visitor;
        _visitor.expression(&self.expression);
        proof {
            assert(walked(v0, self.expression, *_visitor));
        }
        _visitor.list(&self.arguments);
    }
}

impl MutVisitable<ASTCall> for ASTCall {
    fn visit_mut<T: MutVisitor>(&self, visitor: &mut T) -> (r: ASTCall)
        ensures
            expr_view(ASTExpression::Call(Box::new(r))) == expr_view(ASTExpression::Call(Box::new(old(visitor).rebuilt_call(*self)))),
    {
        visitor.call(self)
    }

    fn visit_each_child_mut<T: MutVisitor>(&self, _visitor: &mut T) -> ASTCall {
        let expression = _visitor.expression(&self.expression);
        let arguments = _visitor.list::<ASTExpression>(&self.arguments);
        ASTCall { expression, arguments, range: self.range }
    }
}

#[derive(Debug)]
pub struct ASTBinary {
    pub operator: TokenKind,
    pub left: ASTExpression,
    pub right: ASTExpression,
    pub range: Range<usize>,
}

impl Visitable for ASTBinary {
    fn visit<T: Visitor>(&self, visitor: &mut T)
        ensures
            old(visitor).walked_binary(*self, *final(visitor)),
    {
        visitor.binary(self);
    }

    fn visit_each_child<T: Visitor>(&self, _visitor: &mut T)
        ensures
            exists|mid: T| #[trigger] walked(*old(_visitor), self.left, mid) && walked(mid, self.right, *final(_visitor)),
    {
        let ghost v0 = *_visitor;
        _visitor.expression(&self.left);
        proof {
            assert(walked(v0, self.left, *_visitor));
        }
        _visitor.expression(&self.right);
    }
}

impl MutVisitable<ASTBinary> for ASTBinary {
    fn visit_mut<T: MutVisitor>(&self, visitor: &mut T) -> (r: ASTBinary)
        ensures
            expr_view(ASTExpression::Binary(Box::new(r))) == expr_view(ASTExpression::Binary(Box::new(old(visitor).rebuilt_binary(*self)))),
    {
        visitor.binary(self)
    }

    fn visit_each_child_mut<T: MutVisitor>(&self, _visitor: &mut T) -> ASTBinary {
        let left = _visitor.expression(&self.left);
        let right = _visitor.expression(&self.right);
        ASTBinary { operator: self.operator.clone(), left, right, range: self.range }
    }
}

#[derive(Debug)]
pub struct ASTUnary {
    pub operator: TokenKind,
    pub expression: ASTExpression,
    pub range: Range<usize>,
}

impl Visitable for ASTUnary {
    fn visit<T: Visitor>(&self, visitor: &mut T)
        ensures
            old(visitor).walked_unary(*self, *final(visitor)),
    {
        visitor.unary(self);
    }

    fn visit_each_child<T: Visitor>(&self, _visitor: &mut T)
        ensures
            walked(*old(_visitor), self.expression, *final(_visitor)),
    {
        _visitor.expression(&self.expression);
    }
}

impl MutVisitable<ASTUnary> for ASTUnary {
    fn visit_mut<T: MutVisitor>(&self, visitor: &mut T) -> (r: ASTUnary)
        ensures
            expr_view(ASTExpression::Unary(Box::new(r))) == expr_view(ASTExpression::Unary(Box::new(old(visitor).rebuilt_unary(*self)))),
    {
        visitor.unary(self)
    }

    fn visit_each_child_mut<T: MutVisitor>(&self, _visitor: &mut T) -> ASTUnary {
        let expression = _visitor.expression(&self.expression);
        ASTUnary { operator: self.operator.clone(), expression, range: self.range }
    }
}

#[derive(Debug)]
pub struct ASTAccess {
    pub accessor: ASTAccessContent,
    pub expression: ASTExpression,
    pub range: Range<usize>,
}

impl Visitable for ASTAccess {
    fn visit<T: Visitor>(&self, visitor: &mut T)
        ensures
            old(visitor).walked_access(*self, *final(visitor)),
    {
        visitor.access(self);
    }

    fn visit_each_child<T: Visitor>(&self, _visitor: &mut T)
        ensures
            walked(*old(_visitor), self.expression, *final(_visitor)),
    {
        _visitor.expression(&self.expression);
    }
}

impl MutVisitable<ASTAccess> for ASTAccess {
    fn visit_mut<T: MutVisitor>(&self, visitor: &mut T) -> (r: ASTAccess)
        ensures
            expr_view(ASTExpression::Access(Box::new(r))) == expr_view(ASTExpression::Access(Box::new(old(visitor).rebuilt_access(*self)))),
    {
        visitor.access(self)
    }

    fn visit_each_child_mut<T: MutVisitor>(&self, _visitor: &mut T) -> ASTAccess {
        let expression = _visitor.expression(&self.expression);
        ASTAccess { accessor: self.accessor.clone(), expression, range: self.range }
    }
}

#[derive(Debug)]
pub struct ASTNew {
    pub arguments: Vec<ASTExpression>,
    pub expression: ASTExpression,
    pub range: Range<usize>,
}

impl Visitable for ASTNew {
    fn visit<T: Visitor>(&self, visitor: &mut T)
        ensures
            old(visitor).walked_new_exp(*self, *final(visitor)),
    {
        visitor.new_exp(self);
    }

    fn visit_each_child<T: Visitor>(&self, _visitor: &mut T)
        ensures
            exists|mid: T| #[trigger] old(_visitor).walked_list(self.arguments@, mid) && walked(mid, self.expression, *final(_visitor)),
    {
        _visitor.list(&self.arguments);
        _visitor.expression(&self.expression);
    }
}

impl MutVisitable<ASTNew> for ASTNew {
    fn visit_mut<T: MutVisitor>(&self, visitor: &mut T) -> (r: ASTNew)
        ensures
            expr_view(ASTExpression::New(Box::new(r))) == expr_view(ASTExpression::New(Box::new(old(visitor).rebuilt_new_exp(*self)))),
    {
        visitor.new_exp(self)
    }

    fn visit_each_child_mut<T: MutVisitor>(&self, _visitor: &mut T) -> ASTNew {
        let arguments = _visitor.list::<ASTExpression>(&self.arguments);
        let expression = _visitor.expression(&self.expression);
        ASTNew { arguments, expression, range: self.range }
    }
}

#[derive(Debug)]
pub struct ASTTernary {
    pub condition: ASTExpression,
    pub left: ASTExpression,
    pub right: ASTExpression,
    pub range: Range<usize>,
}

impl Visitable for ASTTernary {
    fn visit<T: Visitor>(&self, visitor: &mut T)
        ensures
            old(visitor).walked_ternary(*self, *final(visitor)),
    {
        visitor.ternary(self);
    }

    fn visit_each_child<T: Visitor>(&self, _visitor: &mut T)
        ensures
            exists|m1: T, m2: T| #[trigger] walked(*old(_visitor), self.condition, m1) && #[trigger] walked(m1, self.left, m2) && walked(m2, self.right, *final(_visitor)),
    {
        let ghost v0 = *_visitor;
        _visitor.expression(&self.condition);
        let ghost v1 = *_visitor;
        proof {
            assert(walked(v0, self.condition, v1));
        }
        _visitor.expression(&self.left);
        proof {
            assert(walked(v1, self.left, *_visitor));
        }
        _visitor.expression(&self.right);
    }
}

impl MutVisitable<ASTTernary> for ASTTernary {
    fn visit_mut<T: MutVisitor>(&self, visitor: &mut T) -> (r: ASTTernary)
        ensures
            expr_view(ASTExpression::Ternary(Box::new(r))) == expr_view(ASTExpression::Ternary(Box::new(old(visitor).rebuilt_ternary(*self)))),
    {
        visitor.ternary(self)
    }

    fn visit_each_child_mut<T: MutVisitor>(&self, _visitor: &mut T) -> ASTTernary {
        let condition = _visitor.expression(&self.condition);
        let left = _visitor.expression(&self.left);
        let right = _visitor.expression(&self.right);
        ASTTernary { condition, left, right, range: self.range }
    }
}

#[derive(Debug)]
pub struct ASTStringLiteralPart {
    pub before: String,
    pub expression: ASTExpression,
    pub range: Range<usize>,
}

impl Visitable for ASTStringLiteralPart {
    fn visit<T: Visitor>(&self, visitor: &mut T)
        ensures
            old(visitor).walked_string_literal_part(*self, *final(visitor)),
    {
        visitor.string_literal_part(self);
    }

    fn visit_each_child<T: Visitor>(&self, _visitor: &mut T)
        ensures
            walked(*old(_visitor), self.expression, *final(_visitor)),
    {
        _visitor.expression(&self.expression);
    }
}

impl MutVisitable<ASTStringLiteralPart> for ASTStringLiteralPart {
    fn visit_mut<T: MutVisitor>(&self, visitor: &mut T) -> (r: ASTStringLiteralPart)
        ensures
            same_part(r, old(visitor).rebuilt_string_literal_part(*self)),
    {
        visitor.string_literal_part(self)
    }

    fn visit_each_child_mut<T: MutVisitor>(&self, _visitor: &mut T) -> ASTStringLiteralPart {
        let expression = _visitor.expression(&self.expression);
        ASTStringLiteralPart { before: self.before.clone(), expression, range: self.range }
    }
}

#[derive(Debug)]
pub struct ASTStringLiteral {
    pub start: String,
    pub spans: Vec<ASTStringLiteralPart>,
    pub range: Range<usize>,
}

impl Visitable for ASTStringLiteral {
    fn visit<T: Visitor>(&self, visitor: &mut T)
        ensures
            old(visitor).walked_string_literal(*self, *final(visitor)),
    {
        visitor.string_literal(self);
    }

    fn visit_each_child<T: Visitor>(&self, _visitor: &mut T)
        ensures
            old(_visitor).walked_list(self.spans@, *final(_visitor)),
    {
        _visitor.list(&self.spans);
    }
}

impl MutVisitable<ASTStringLiteral> for ASTStringLiteral {
    fn visit_mut<T: MutVisitor>(&self, visitor: &mut T) -> (r: ASTStringLiteral)
        ensures
            same_literal(r, old(visitor).rebuilt_string_literal(*self)),
    {
        visitor.string_literal(self)
    }

    fn visit_each_child_mut<T: MutVisitor>(&self, _visitor: &mut T) -> ASTStringLiteral {
        let spans = _visitor.list::<ASTStringLiteralPart>(&self.spans);
        ASTStringLiteral { start: self.start.clone(), spans, range: self.range }
    }
}

#[derive(Debug)]
pub enum ASTAccessContent {
    Identifier(ASTIdentifier),
    Expression(ASTExpression),
}

impl ASTAccessContent {
    pub open spec fn spec_range(&self) -> Range<usize> {
        match self {
            ASTAccessContent::Identifier(ident) => ident.range,
            ASTAccessContent::Expression(exp) => exp.spec_range(),
        }
    }

    pub fn range(&self) -> (r: &Range<usize>)
        ensures
            *r == self.spec_range(),
    {
        match self {
            ASTAccessContent::Identifier(ident) => &ident.range,
            ASTAccessContent::Expression(exp) => exp.range(),
        }
    }
}

impl Visitable for ASTAccessContent {
    fn visit<T: Visitor>(&self, visitor: &mut T)
        ensures
            match self {
            ASTAccessContent::Identifier(ident) => old(visitor).walked_identifier(*ident, *final(visitor)),
            ASTAccessContent::Expression(exp) => walked(*old(visitor), *exp, *final(visitor)),
        },
    {
        match self {
            ASTAccessContent::Identifier(ident) => ident.visit(visitor),
            ASTAccessContent::Expression(exp) => exp.visit(visitor),
        }
    }

    fn visit_each_child<T: Visitor>(&self, visitor: &mut T)
        ensures
            match self {
            ASTAccessContent::Identifier(ident) => *final(visitor) == *old(visitor),
            ASTAccessContent::Expression(exp) => expr_children_walked(*exp, *old(visitor), *final(visitor)),
        },
    {
        match self {
            ASTAccessContent::Identifier(ident) => ident.visit_each_child(visitor),
            ASTAccessContent::Expression(exp) => exp.visit_each_child(visitor),
        }
    }
}

impl MutVisitable<ASTAccessContent> for ASTAccessContent {
    fn visit_mut<T: MutVisitor>(&self, visitor: &mut T) -> ASTAccessContent {
        match self {
            ASTAccessContent::Identifier(ident) => ASTAccessContent::Identifier(ident.visit_mut(visitor)),
            ASTAccessContent::Expression(exp) => ASTAccessContent::Expression(exp.visit_mut(visitor)),
        }
    }

    fn visit_each_child_mut<T: MutVisitor>(&self, visitor: &mut T) -> ASTAccessContent {
        match self {
            ASTAccessContent::Identifier(ident) => ASTAccessContent::Identifier(ident.visit_each_child_mut(visitor)),
            ASTAccessContent::Expression(exp) => ASTAccessContent::Expression(exp.visit_each_child_mut(visitor)),
        }
    }
}

/// A javascript expression.
#[derive(Debug)]
pub enum ASTExpression {
    String(ASTString),
    Number(ASTNumber),
    Boolean(ASTBoolean),
    Identifier(ASTIdentifier),
    Binary(Box<ASTBinary>),
    Unary(Box<ASTUnary>),
    Call(Box<ASTCall>),
    ArrayLit(ASTArray),
    Access(Box<ASTAccess>),
    New(Box<ASTNew>),
    Ternary(Box<ASTTernary>),
}

impl ASTExpression {
    /// The range of source text the expression covers.
    pub open spec fn spec_range(&self) -> Range<usize> {
        match self {
            ASTExpression::String(e) => e.range,
            ASTExpression::Number(e) => e.range,
            ASTExpression::Boolean(e) => e.range,
            ASTExpression::Identifier(e) => e.range,
            ASTExpression::Binary(e) => e.range,
            ASTExpression::Unary(e) => e.range,
            ASTExpression::Call(e) => e.range,
            ASTExpression::ArrayLit(e) => e.range,
            ASTExpression::Access(e) => e.range,
            ASTExpression::New(e) => e.range,
            ASTExpression::Ternary(e) => e.range,
        }
    }

    pub fn range(&self) -> (r: &Range<usize>)
        ensures
            *r == self.spec_range(),
    {
        match self {
            ASTExpression::String(e) => &e.range,
            ASTExpression::Number(e) => &e.range,
            ASTExpression::Boolean(e) => &e.range,
            ASTExpression::Identifier(e) => &e.range,
            ASTExpression::Binary(e) => &e.range,
            ASTExpression::Unary(e) => &e.range,
            ASTExpression::Call(e) => &e.range,
            ASTExpression::ArrayLit(e) => &e.range,
            ASTExpression::Access(e) => &e.range,
            ASTExpression::New(e) => &e.range,
            ASTExpression::Ternary(e) => &e.range,
        }
    }

    /// Hands the expression to the visitor's method for its kind.
    pub fn visit_inner<T: Visitor>(&self, visitor: &mut T)
        ensures
            walked(*old(visitor), *self, *final(visitor)),
    {
        match self {
            ASTExpression::String(e) => visitor.string(e),
            ASTExpression::Number(e) => visitor.number(e),
            ASTExpression::Boolean(e) => visitor.boolean(e),
            ASTExpression::Identifier(e) => visitor.identifier(e),
            ASTExpression::Binary(e) => visitor.binary(e),
            ASTExpression::Unary(e) => visitor.unary(e),
            ASTExpression::Call(e) => visitor.call(e),
            ASTExpression::ArrayLit(e) => visitor.array(e),
            ASTExpression::Access(e) => visitor.access(e),
            ASTExpression::New(e) => visitor.new_exp(e),
            ASTExpression::Ternary(e) => visitor.ternary(e),
        }
    }

    /// Rebuilds the expression with the visitor's method for its kind; the
    /// result is of the same kind.
    pub fn visit_inner_mut<T: MutVisitor>(&self, visitor: &mut T) -> (r: ASTExpression)
        ensures
            expr_kind(r) == expr_kind(*self),
            match *self {
                ASTExpression::String(x) => r == ASTExpression::String(old(visitor).rebuilt_string(x)),
                ASTExpression::Number(x) => r == ASTExpression::Number(old(visitor).rebuilt_number(x)),
                ASTExpression::Boolean(x) => r == ASTExpression::Boolean(old(visitor).rebuilt_boolean(x)),
                ASTExpression::Identifier(x) => r == ASTExpression::Identifier(old(visitor).rebuilt_identifier(x)),
                ASTExpression::Binary(x) => expr_kind(r) == expr_kind(*self) && expr_view(r) == expr_view(ASTExpression::Binary(Box::new(old(visitor).rebuilt_binary(*x)))),
                ASTExpression::Unary(x) => expr_kind(r) == expr_kind(*self) && expr_view(r) == expr_view(ASTExpression::Unary(Box::new(old(visitor).rebuilt_unary(*x)))),
                ASTExpression::Call(x) => expr_kind(r) == expr_kind(*self) && expr_view(r) == expr_view(ASTExpression::Call(Box::new(old(visitor).rebuilt_call(*x)))),
                ASTExpression::Access(x) => expr_kind(r) == expr_kind(*self) && expr_view(r) == expr_view(ASTExpression::Access(Box::new(old(visitor).rebuilt_access(*x)))),
                ASTExpression::New(x) => expr_kind(r) == expr_kind(*self) && expr_view(r) == expr_view(ASTExpression::New(Box::new(old(visitor).rebuilt_new_exp(*x)))),
                ASTExpression::Ternary(x) => expr_kind(r) == expr_kind(*self) && expr_view(r) == expr_view(ASTExpression::Ternary(Box::new(old(visitor).rebuilt_ternary(*x)))),
                ASTExpression::ArrayLit(x) => expr_kind(r) == expr_kind(*self) && expr_view(r) == expr_view(ASTExpression::ArrayLit(old(visitor).rebuilt_array(x))),
            },
    {
        match self {
            ASTExpression::String(e) => ASTExpression::String(visitor.string(e)),
            ASTExpression::Number(e) => ASTExpression::Number(visitor.number(e)),
            ASTExpression::Boolean(e) => ASTExpression::Boolean(visitor.boolean(e)),
            ASTExpression::Identifier(e) => ASTExpression::Identifier(visitor.identifier(e)),
            ASTExpression::Binary(e) => ASTExpression::Binary(Box::new(visitor.binary(e))),
            ASTExpression::Unary(e) => ASTExpression::Unary(Box::new(visitor.unary(e))),
            ASTExpression::Call(e) => ASTExpression::Call(Box::new(visitor.call(e))),
            ASTExpression::ArrayLit(e) => ASTExpression::ArrayLit(visitor.array(e)),
            ASTExpression::Access(e) => ASTExpression::Access(Box::new(visitor.access(e))),
            ASTExpression::New(e) => ASTExpression::New(Box::new(visitor.new_exp(e))),
            ASTExpression::Ternary(e) => ASTExpression::Ternary(Box::new(visitor.ternary(e))),
        }
    }
}

impl Visitable for ASTExpression {
    fn visit<T: Visitor>(&self, visitor: &mut T)
        ensures
            walked(*old(visitor), *self, *final(visitor)),
    {
        visitor.expression(self);
    }

    fn visit_each_child<T: Visitor>(&self, visitor: &mut T)
        ensures
            expr_children_walked(*self, *old(visitor), *final(visitor)),
    {
        match self {
            ASTExpression::String(e) => e.visit_each_child(visitor),
            ASTExpression::Number(e) => e.visit_each_child(visitor),
            ASTExpression::Boolean(e) => e.visit_each_child(visitor),
            ASTExpression::Identifier(e) => e.visit_each_child(visitor),
            ASTExpression::Binary(e) => e.visit_each_child(visitor),
            ASTExpression::Unary(e) => e.visit_each_child(visitor),
            ASTExpression::Call(e) => e.visit_each_child(visitor),
            ASTExpression::ArrayLit(e) => e.visit_each_child(visitor),
            ASTExpression::Access(e) => e.visit_each_child(visitor),
            ASTExpression::New(e) => e.visit_each_child(visitor),
            ASTExpression::Ternary(e) => e.visit_each_child(visitor),
        }
    }
}

impl MutVisitable<ASTExpression> for ASTExpression {
    fn visit_mut<T: MutVisitor>(&self, visitor: &mut T) -> ASTExpression {
        visitor.expression(self)
    }

    fn visit_each_child_mut<T: MutVisitor>(&self, visitor: &mut T) -> ASTExpression {
        match self {
            ASTExpression::String(e) => ASTExpression::String(e.visit_each_child_mut(visitor)),
            ASTExpression::Number(e) => ASTExpression::Number(e.visit_each_child_mut(visitor)),
            ASTExpression::Boolean(e) => ASTExpression::Boolean(e.visit_each_child_mut(visitor)),
            ASTExpression::Identifier(e) => ASTExpression::Identifier(e.visit_each_child_mut(visitor)),
            ASTExpression::Binary(e) => ASTExpression::Binary(Box::new(e.visit_each_child_mut(visitor))),
            ASTExpression::Unary(e) => ASTExpression::Unary(Box::new(e.visit_each_child_mut(visitor))),
            ASTExpression::Call(e) => ASTExpression::Call(Box::new(e.visit_each_child_mut(visitor))),
            ASTExpression::ArrayLit(e) => ASTExpression::ArrayLit(e.visit_each_child_mut(visitor)),
            ASTExpression::Access(e) => ASTExpression::Access(Box::new(e.visit_each_child_mut(visitor))),
            ASTExpression::New(e) => ASTExpression::New(Box::new(e.visit_each_child_mut(visitor))),
            ASTExpression::Ternary(e) => ASTExpression::Ternary(Box::new(e.visit_each_child_mut(visitor))),
        }
    }
}

impl<Item: Visitable> Visitable for Vec<Item> {
    fn visit<T: Visitor>(&self, visitor: &mut T)
        ensures
            old(visitor).walked_list(self@, *final(visitor)),
    {
        visitor.list(self)
    }

    fn visit_each_child<T: Visitor>(&self, visitor: &mut T) {
        let mut i: usize = 0;
        while i < self.len()
            decreases self.len() - i,
        {
            self[i].visit(visitor);
            i = i + 1;
        }
    }
}

impl<Item: MutVisitable<Item>> MutVisitable<Vec<Item>> for Vec<Item> {
    fn visit_mut<T: MutVisitor>(&self, visitor: &mut T) -> Vec<Item> {
        visitor.list::<Item>(self)
    }

    fn visit_each_child_mut<T: MutVisitor>(&self, visitor: &mut T) -> Vec<Item> {
        let mut out: Vec<Item> = Vec::new();
        let mut i: usize = 0;
        while i < self.len()
            decreases self.len() - i,
        {
            out.push(self[i].visit_mut(visitor));
            i = i + 1;
        }
        out
    }
}


/// Two parts of a template string are the same: the same text before, the
/// same expression and the same range.
pub open spec fn same_part(a: ASTStringLiteralPart, b: ASTStringLiteralPart) -> bool {
    a.before == b.before && expr_view(a.expression) == expr_view(b.expression) && a.range == b.range
}

/// Two template strings are the same: the same start, the same parts and the same range.
pub open spec fn same_literal(a: ASTStringLiteral, b: ASTStringLiteral) -> bool {
    &&& a.start == b.start
    &&& a.range == b.range
    &&& a.spans@.len() == b.spans@.len()
    &&& forall|j: int| 0 <= j < a.spans@.len() ==> same_part(#[trigger] a.spans@[j], b.spans@[j])
}

/// Two accessors are the same: the same identifier, or the same expression.
pub open spec fn same_accessor(a: ASTAccessContent, b: ASTAccessContent) -> bool {
    match (a, b) {
        (ASTAccessContent::Identifier(x), ASTAccessContent::Identifier(y)) => x == y,
        (ASTAccessContent::Expression(x), ASTAccessContent::Expression(y)) => expr_view(x) == expr_view(y),
        _ => false,
    }
}

// Copies of nodes. A derived `Clone` would recurse through trait impls, so
// the copies are made by functions that recurse on the node itself.

impl ASTString {
    pub fn deep_copy(&self) -> (r: ASTString)
        ensures
            r == *self,
        decreases self,
    {
        ASTString { range: self.range }
    }
}

impl Clone for ASTString {
    fn clone(&self) -> (r: ASTString)
        ensures
            r == *self,
    {
        self.deep_copy()
    }
}

impl ASTNumber {
    pub fn deep_copy(&self) -> (r: ASTNumber)
        ensures
            r == *self,
        decreases self,
    {
        ASTNumber { range: self.range }
    }
}

impl Clone for ASTNumber {
    fn clone(&self) -> (r: ASTNumber)
        ensures
            r == *self,
    {
        self.deep_copy()
    }
}

impl ASTBoolean {
    pub fn deep_copy(&self) -> (r: ASTBoolean)
        ensures
            r == *self,
        decreases self,
    {
        ASTBoolean { range: self.range }
    }
}

impl Clone for ASTBoolean {
    fn clone(&self) -> (r: ASTBoolean)
        ensures
            r == *self,
    {
        self.deep_copy()
    }
}

impl ASTIdentifier {
    pub fn deep_copy(&self) -> (r: ASTIdentifier)
        ensures
            r == *self,
        decreases self,
    {
        ASTIdentifier { range: self.range }
    }
}

impl Clone for ASTIdentifier {
    fn clone(&self) -> (r: ASTIdentifier)
        ensures
            r == *self,
    {
        self.deep_copy()
    }
}

impl ASTArray {
    pub fn deep_copy(&self) -> (r: ASTArray)
        ensures
            expr_view(ASTExpression::ArrayLit(r)) == expr_view(ASTExpression::ArrayLit(*self)),
        decreases self,
    {
        ASTArray { elements: copy_expressions(&self.elements), range: self.range }
    }
}

impl Clone for ASTArray {
    fn clone(&self) -> (r: ASTArray)
        ensures
            expr_view(ASTExpression::ArrayLit(r)) == expr_view(ASTExpression::ArrayLit(*self)),
    {
        self.deep_copy()
    }
}

impl ASTCall {
    pub fn deep_copy(&self) -> (r: ASTCall)
        ensures
            expr_view(ASTExpression::Call(Box::new(r))) == expr_view(ASTExpression::Call(Box::new(*self))),
        decreases self,
    {
        ASTCall { expression: self.expression.deep_copy(), arguments: copy_expressions(&self.arguments), range: self.range }
    }
}

impl Clone for ASTCall {
    fn clone(&self) -> (r: ASTCall)
        ensures
            expr_view(ASTExpression::Call(Box::new(r))) == expr_view(ASTExpression::Call(Box::new(*self))),
    {
        self.deep_copy()
    }
}

impl ASTBinary {
    pub fn deep_copy(&self) -> (r: ASTBinary)
        ensures
            expr_view(ASTExpression::Binary(Box::new(r))) == expr_view(ASTExpression::Binary(Box::new(*self))),
        decreases self,
    {
        ASTBinary { operator: self.operator, left: self.left.deep_copy(), right: self.right.deep_copy(), range: self.range }
    }
}

impl Clone for ASTBinary {
    fn clone(&self) -> (r: ASTBinary)
        ensures
            expr_view(ASTExpression::Binary(Box::new(r))) == expr_view(ASTExpression::Binary(Box::new(*self))),
    {
        self.deep_copy()
    }
}

impl ASTUnary {
    pub fn deep_copy(&self) -> (r: ASTUnary)
        ensures
            expr_view(ASTExpression::Unary(Box::new(r))) == expr_view(ASTExpression::Unary(Box::new(*self))),
        decreases self,
    {
        ASTUnary { operator: self.operator, expression: self.expression.deep_copy(), range: self.range }
    }
}

impl Clone for ASTUnary {
    fn clone(&self) -> (r: ASTUnary)
        ensures
            expr_view(ASTExpression::Unary(Box::new(r))) == expr_view(ASTExpression::Unary(Box::new(*self))),
    {
        self.deep_copy()
    }
}

impl ASTAccess {
    pub fn deep_copy(&self) -> (r: ASTAccess)
        ensures
            expr_view(ASTExpression::Access(Box::new(r))) == expr_view(ASTExpression::Access(Box::new(*self))),
        decreases self,
    {
        ASTAccess { accessor: self.accessor.deep_copy(), expression: self.expression.deep_copy(), range: self.range }
    }
}

impl Clone for ASTAccess {
    fn clone(&self) -> (r: ASTAccess)
        ensures
            expr_view(ASTExpression::Access(Box::new(r))) == expr_view(ASTExpression::Access(Box::new(*self))),
    {
        self.deep_copy()
    }
}

impl ASTNew {
    pub fn deep_copy(&self) -> (r: ASTNew)
        ensures
            expr_view(ASTExpression::New(Box::new(r))) == expr_view(ASTExpression::New(Box::new(*self))),
        decreases self,
    {
        ASTNew { arguments: copy_expressions(&self.arguments), expression: self.expression.deep_copy(), range: self.range }
    }
}

impl Clone for ASTNew {
    fn clone(&self) -> (r: ASTNew)
        ensures
            expr_view(ASTExpression::New(Box::new(r))) == expr_view(ASTExpression::New(Box::new(*self))),
    {
        self.deep_copy()
    }
}

impl ASTTernary {
    pub fn deep_copy(&self) -> (r: ASTTernary)
        ensures
            expr_view(ASTExpression::Ternary(Box::new(r))) == expr_view(ASTExpression::Ternary(Box::new(*self))),
        decreases self,
    {
        ASTTernary { condition: self.condition.deep_copy(), left: self.left.deep_copy(), right: self.right.deep_copy(), range: self.range }
    }
}

impl Clone for ASTTernary {
    fn clone(&self) -> (r: ASTTernary)
        ensures
            expr_view(ASTExpression::Ternary(Box::new(r))) == expr_view(ASTExpression::Ternary(Box::new(*self))),
    {
        self.deep_copy()
    }
}

impl ASTStringLiteralPart {
    pub fn deep_copy(&self) -> (r: ASTStringLiteralPart)
        ensures
            same_part(r, *self),
        decreases self,
    {
        ASTStringLiteralPart { before: self.before.clone(), expression: self.expression.deep_copy(), range: self.range }
    }
}

impl Clone for ASTStringLiteralPart {
    fn clone(&self) -> (r: ASTStringLiteralPart)
        ensures
            same_part(r, *self),
    {
        self.deep_copy()
    }
}

impl ASTStringLiteral {
    pub fn deep_copy(&self) -> (r: ASTStringLiteral)
        ensures
            same_literal(r, *self),
        decreases self,
    {
        ASTStringLiteral { start: self.start.clone(), spans: copy_parts(&self.spans), range: self.range }
    }
}

impl Clone for ASTStringLiteral {
    fn clone(&self) -> (r: ASTStringLiteral)
        ensures
            same_literal(r, *self),
    {
        self.deep_copy()
    }
}

impl ASTExpression {
    pub fn deep_copy(&self) -> (r: ASTExpression)
        ensures
            expr_view(r) == expr_view(*self),
        decreases self,
    {
        match self {
            ASTExpression::String(e) => ASTExpression::String(e.deep_copy()),
            ASTExpression::Number(e) => ASTExpression::Number(e.deep_copy()),
            ASTExpression::Boolean(e) => ASTExpression::Boolean(e.deep_copy()),
            ASTExpression::Identifier(e) => ASTExpression::Identifier(e.deep_copy()),
            ASTExpression::Binary(e) => ASTExpression::Binary(Box::new(e.deep_copy())),
            ASTExpression::Unary(e) => ASTExpression::Unary(Box::new(e.deep_copy())),
            ASTExpression::Call(e) => ASTExpression::Call(Box::new(e.deep_copy())),
            ASTExpression::ArrayLit(e) => ASTExpression::ArrayLit(e.deep_copy()),
            ASTExpression::Access(e) => ASTExpression::Access(Box::new(e.deep_copy())),
            ASTExpression::New(e) => ASTExpression::New(Box::new(e.deep_copy())),
            ASTExpression::Ternary(e) => ASTExpression::Ternary(Box::new(e.deep_copy())),
        }
    }
}

impl Clone for ASTExpression {
    fn clone(&self) -> (r: ASTExpression)
        ensures
            expr_view(r) == expr_view(*self),
    {
        self.deep_copy()
    }
}

impl ASTAccessContent {
    pub fn deep_copy(&self) -> (r: ASTAccessContent)
        ensures
            same_accessor(r, *self),
        decreases self,
    {
        match self {
            ASTAccessContent::Identifier(ident) => ASTAccessContent::Identifier(ident.deep_copy()),
            ASTAccessContent::Expression(exp) => ASTAccessContent::Expression(exp.deep_copy()),
        }
    }
}

impl Clone for ASTAccessContent {
    fn clone(&self) -> (r: ASTAccessContent)
        ensures
            same_accessor(r, *self),
    {
        self.deep_copy()
    }
}

fn copy_expressions(v: &Vec<ASTExpression>) -> (r: Vec<ASTExpression>)
    ensures
        expr_views(r@) == expr_views(v@),
    decreases v,
{
    let mut out: Vec<ASTExpression> = Vec::new();
    let mut i: usize = 0;
    while i < v.len()
        invariant
            0 <= i <= v@.len(),
            out@.len() == i,
            forall|j: int| 0 <= j < i ==> expr_view(#[trigger] out@[j]) == expr_view(v@[j]),
        decreases v.len() - i,
    {
        proof {
            assert(decreases_to!(v => v@[i as int]));
        }
        out.push(v[i].deep_copy());
        i = i + 1;
    }
    proof {
        lemma_expr_views(out@);
        lemma_expr_views(v@);
        assert(expr_views(out@) =~= expr_views(v@));
    }
    out
}

fn copy_parts(v: &Vec<ASTStringLiteralPart>) -> (r: Vec<ASTStringLiteralPart>)
    ensures
        r@.len() == v@.len(),
        forall|j: int| 0 <= j < v@.len() ==> same_part(#[trigger] r@[j], v@[j]),
    decreases v,
{
    let mut out: Vec<ASTStringLiteralPart> = Vec::new();
    let mut i: usize = 0;
    while i < v.len()
        invariant
            0 <= i <= v@.len(),
            out@.len() == i,
            forall|j: int| 0 <= j < i ==> same_part(#[trigger] out@[j], v@[j]),
        decreases v.len() - i,
    {
        proof {
            assert(decreases_to!(v => v@[i as int]));
        }
        out.push(v[i].deep_copy());
        i = i + 1;
    }
    out
}


/// The range lies within input of length `len`, and does not run backwards.
pub open spec fn range_within(r: Range<usize>, len: int) -> bool {
    r.start <= r.end <= len
}

/// Every node of the expression covers a range within input of length `len`,
/// and every string literal covers at least its two quotes.
pub open spec fn wf_expr(e: ASTExpression, len: int) -> bool
    decreases e,
{
    match e {
        ASTExpression::String(s) => range_within(s.range, len) && s.range.end - s.range.start >= 2,
        ASTExpression::Number(n) => range_within(n.range, len),
        ASTExpression::Boolean(b) => range_within(b.range, len),
        ASTExpression::Identifier(i) => range_within(i.range, len),
        ASTExpression::Binary(b) => range_within(b.range, len) && wf_expr(b.left, len) && wf_expr(b.right, len),
        ASTExpression::Unary(u) => range_within(u.range, len) && wf_expr(u.expression, len),
        ASTExpression::Call(c) => {
            &&& range_within(c.range, len)
            &&& wf_expr(c.expression, len)
            &&& forall|i: int| 0 <= i < c.arguments@.len() ==> wf_expr(#[trigger] c.arguments@[i], len)
        },
        ASTExpression::ArrayLit(a) => {
            &&& range_within(a.range, len)
            &&& forall|i: int| 0 <= i < a.elements@.len() ==> wf_expr(#[trigger] a.elements@[i], len)
        },
        ASTExpression::Access(a) => {
            &&& range_within(a.range, len)
            &&& wf_expr(a.expression, len)
            &&& match a.accessor {
                ASTAccessContent::Identifier(i) => range_within(i.range, len),
                ASTAccessContent::Expression(x) => wf_expr(x, len),
            }
        },
        ASTExpression::New(n) => {
            &&& range_within(n.range, len)
            &&& wf_expr(n.expression, len)
            &&& forall|i: int| 0 <= i < n.arguments@.len() ==> wf_expr(#[trigger] n.arguments@[i], len)
        },
        ASTExpression::Ternary(t) => {
            &&& range_within(t.range, len)
            &&& wf_expr(t.condition, len)
            &&& wf_expr(t.left, len)
            &&& wf_expr(t.right, len)
        },
    }
}


/// An expression as a plain value: what kind it is, its parts, and its range.
pub enum ExprView {
    String(Range<usize>),
    Number(Range<usize>),
    Boolean(Range<usize>),
    Identifier(Range<usize>),
    Binary(TokenKind, Box<ExprView>, Box<ExprView>, Range<usize>),
    Unary(TokenKind, Box<ExprView>, Range<usize>),
    Call(Box<ExprView>, Seq<ExprView>, Range<usize>),
    ArrayLit(Seq<ExprView>, Range<usize>),
    /// A property named by an identifier at the first range.
    AccessName(Range<usize>, Box<ExprView>, Range<usize>),
    /// A property given by an expression, the first part.
    AccessExpr(Box<ExprView>, Box<ExprView>, Range<usize>),
    New(Box<ExprView>, Seq<ExprView>, Range<usize>),
    Ternary(Box<ExprView>, Box<ExprView>, Box<ExprView>, Range<usize>),
}

pub open spec fn expr_view(e: ASTExpression) -> ExprView
    decreases e,
{
    match e {
        ASTExpression::String(s) => ExprView::String(s.range),
        ASTExpression::Number(n) => ExprView::Number(n.range),
        ASTExpression::Boolean(b) => ExprView::Boolean(b.range),
        ASTExpression::Identifier(i) => ExprView::Identifier(i.range),
        ASTExpression::Binary(b) => ExprView::Binary(b.operator, Box::new(expr_view(b.left)), Box::new(expr_view(b.right)), b.range),
        ASTExpression::Unary(u) => ExprView::Unary(u.operator, Box::new(expr_view(u.expression)), u.range),
        ASTExpression::Call(c) => ExprView::Call(Box::new(expr_view(c.expression)), expr_views(c.arguments@), c.range),
        ASTExpression::ArrayLit(a) => ExprView::ArrayLit(expr_views(a.elements@), a.range),
        ASTExpression::Access(a) => match a.accessor {
            ASTAccessContent::Identifier(i) => ExprView::AccessName(i.range, Box::new(expr_view(a.expression)), a.range),
            ASTAccessContent::Expression(x) => ExprView::AccessExpr(Box::new(expr_view(x)), Box::new(expr_view(a.expression)), a.range),
        },
        ASTExpression::New(n) => ExprView::New(Box::new(expr_view(n.expression)), expr_views(n.arguments@), n.range),
        ASTExpression::Ternary(t) => ExprView::Ternary(
            Box::new(expr_view(t.condition)),
            Box::new(expr_view(t.left)),
            Box::new(expr_view(t.right)),
            t.range,
        ),
    }
}

pub open spec fn expr_views(v: Seq<ASTExpression>) -> Seq<ExprView>
    decreases v,
{
    if v.len() == 0 {
        seq![]
    } else {
        expr_views(v.drop_last()).push(expr_view(v.last()))
    }
}

/// A view for each expression, in order.
pub proof fn lemma_expr_views(v: Seq<ASTExpression>)
    ensures
        expr_views(v).len() == v.len(),
        forall|i: int| 0 <= i < v.len() ==> #[trigger] expr_views(v)[i] == expr_view(v[i]),
    decreases v.len(),
{
    if v.len() > 0 {
        lemma_expr_views(v.drop_last());
    }
}

} // verus!
