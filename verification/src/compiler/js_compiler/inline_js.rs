use vstd::prelude::*;
use crate::compiler::visitors::magic_vars_collector::{MagicObject, MagicVariableType, value_map};
use crate::compiler::visitors::variable_collector::text_at;
use crate::js_parser::input::InputPresenter;
use crate::js_parser::parser::ast::{
    ASTAccess, ASTArray, ASTBinary, ASTBoolean, ASTCall, ASTExpression, ASTIdentifier, ASTNew, ASTNumber, ASTString,
    ASTStringLiteral, ASTStringLiteralPart, ASTTernary, ASTUnary, Visitor,
};
use crate::js_parser::tokenizer::TokenKind;

verus! {

/// Notes the types that assignments to plain names give them.
pub struct MagicVariableTraverser<'a> {
    pub input: InputPresenter<'a>,
    pub magic_variables: MagicObject,
}

impl<'a> MagicVariableTraverser<'a> {
    pub fn new(input: InputPresenter<'a>) -> (t: Self)
        ensures
            t.input == input,
            t.magic_variables.0@.len() == 0,
    {
        MagicVariableTraverser { magic_variables: MagicObject::new(), input }
    }
}

/// The name an assignment gives a type, and the type: `+=`, `==`, `===` and
/// `!==` with a literal on the right give that literal's type (unknown for
/// other right sides); `-=` and `*=` with a number give a number. None where
/// the left side is no name within the input or the operator is another.
pub open spec fn magic_assignment(d: Seq<u8>, exp: ASTBinary) -> Option<(Seq<char>, MagicVariableType)> {
    match exp.left {
        ASTExpression::Identifier(ident) => if ident.range.start > ident.range.end || ident.range.end > d.len() {
            None
        } else {
            let op = exp.operator;
            let name = text_at(d, ident.range);
            if op == TokenKind::PlusEqualsOp || op == TokenKind::EqualsEqualsOp || op == TokenKind::EqualsEqualsEqualsOp
                || op == TokenKind::NotEqualsEqualsOp {
                Some((name, match exp.right {
                    ASTExpression::String(_) => MagicVariableType::String,
                    ASTExpression::Number(_) => MagicVariableType::Number,
                    ASTExpression::Boolean(_) => MagicVariableType::Bool,
                    _ => MagicVariableType::Unknown,
                }))
            } else if (op == TokenKind::MinusEqualsOp || op == TokenKind::StarEqualsOp) && exp.right is Number {
                Some((name, MagicVariableType::Number))
            } else {
                None
            }
        },
        _ => None,
    }
}

impl<'a> Visitor for MagicVariableTraverser<'a> {
    /// The assignment, if there is one, sets the type of its name.
    open spec fn walked_binary(&self, exp: ASTBinary, after: Self) -> bool {
        &&& after.input == self.input
        &&& value_map(after.magic_variables.0@) == match magic_assignment(self.input.data@, exp) {
            Some(a) => value_map(self.magic_variables.0@).insert(a.0, Some(a.1)),
            None => value_map(self.magic_variables.0@),
        }
    }

    /// `+=`, `==`, `===` and `!==` give a name the type of the literal on the
    /// right; `-=` and `*=` with a number make it a number.
    fn binary(&mut self, exp: &ASTBinary) {
        if let ASTExpression::Identifier(left_ident) = &exp.left {
            if left_ident.range.start > left_ident.range.end || left_ident.range.end > self.input.len() {
                return;
            }
            let op = exp.operator;
            if op == TokenKind::PlusEqualsOp || op == TokenKind::EqualsEqualsOp || op == TokenKind::EqualsEqualsEqualsOp
                || op == TokenKind::NotEqualsEqualsOp {
                let variable_type = match exp.right {
                    ASTExpression::String(_) => MagicVariableType::String,
                    ASTExpression::Number(_) => MagicVariableType::Number,
                    ASTExpression::Boolean(_) => MagicVariableType::Bool,
                    _ => MagicVariableType::Unknown,
                };
                let name = self.input.from_range(&left_ident.range);
                self.magic_variables.insert(name, variable_type);
            } else if (op == TokenKind::MinusEqualsOp || op == TokenKind::StarEqualsOp) && matches!(
                exp.right,
                ASTExpression::Number(_)
            ) {
                let name = self.input.from_range(&left_ident.range);
                self.magic_variables.insert(name, MagicVariableType::Number);
            }
        }
    }

    fn list<T>(&mut self, exp: &Vec<T>) {
    }

    fn string(&mut self, exp: &ASTString) {
    }

    fn number(&mut self, exp: &ASTNumber) {
    }

    fn boolean(&mut self, exp: &ASTBoolean) {
    }

    fn identifier(&mut self, exp: &ASTIdentifier) {
    }

    fn array(&mut self, exp: &ASTArray) {
    }

    fn call(&mut self, exp: &ASTCall) {
    }

    fn unary(&mut self, exp: &ASTUnary) {
    }

    fn access(&mut self, exp: &ASTAccess) {
    }

    fn new_exp(&mut self, exp: &ASTNew) {
    }

    fn ternary(&mut self, exp: &ASTTernary) {
    }

    fn string_literal_part(&mut self, exp: &ASTStringLiteralPart) {
    }

    fn string_literal(&mut self, exp: &ASTStringLiteral) {
    }
}

} // verus!
