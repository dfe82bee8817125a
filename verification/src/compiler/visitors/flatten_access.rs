use vstd::prelude::*;
use crate::compiler::visitors::magic_vars::accessor_text;
use crate::js_parser::input::InputPresenter;
use crate::js_parser::parser::ast::{ASTAccess, ASTAccessContent, ASTExpression, wf_expr};

verus! {

/// The text an accessor spells: a name, a string or a number.
pub fn get_string_from_accessor(input: &InputPresenter, accessor: &ASTAccessContent) -> (r: Option<String>)
    requires
        accessor matches ASTAccessContent::Identifier(i) ==> i.range.start <= i.range.end <= input.data@.len(),
        accessor matches ASTAccessContent::Expression(x) ==> wf_expr(*x, input.data@.len() as int),
    ensures
        match r {
            Some(s) => accessor_text(*accessor, input.data@) == Some(s@),
            None => accessor_text(*accessor, input.data@).is_none(),
        },
{
    match accessor {
        ASTAccessContent::Identifier(ident) => Some(input.from_range(&ident.range)),
        ASTAccessContent::Expression(exp) => match exp {
            ASTExpression::String(str) => Some(input.from_range(&str.range)),
            ASTExpression::Number(num) => Some(input.from_range(&num.range)),
            _ => None,
        },
    }
}

/// The texts of a chain of property accesses, from the last accessor back to
/// the first; none where an accessor spells no name, string or number.
pub open spec fn chain_texts(e: ASTExpression, d: Seq<u8>) -> Option<Seq<Seq<char>>>
    decreases e,
{
    match e {
        ASTExpression::Access(acc) => match accessor_text(acc.accessor, d) {
            Some(t) => match chain_texts(acc.expression, d) {
                Some(rest) => Some(seq![t] + rest),
                None => None,
            },
            None => None,
        },
        _ => Some(seq![]),
    }
}

/// The texts of some strings.
pub open spec fn texts_of(v: Seq<String>) -> Seq<Seq<char>> {
    v.map_values(|s: String| s@)
}

/// The names of a chain of property accesses, from the last accessor back
/// to the first; nothing where an accessor spells no name.
pub fn flatten_access(input: &InputPresenter, access: &ASTAccess) -> (r: Option<Vec<String>>)
    requires
        wf_expr(ASTExpression::Access(Box::new(*access)), input.data@.len() as int),
    ensures
        match r {
            Some(v) => chain_texts(ASTExpression::Access(Box::new(*access)), input.data@) == Some(texts_of(v@)),
            None => chain_texts(ASTExpression::Access(Box::new(*access)), input.data@).is_none(),
        },
{
    let ghost d = input.data@;
    let ghost full = chain_texts(ASTExpression::Access(Box::new(*access)), d);
    let mut result: Vec<String> = Vec::new();
    match get_string_from_accessor(input, &access.accessor) {
        Some(s) => result.push(s),
        None => { return None; },
    }
    let mut left = &access.expression;
    proof {
        assert(texts_of(result@) =~= seq![accessor_text(access.accessor, d)->Some_0]);
    }
    loop
        invariant
            d == input.data@,
            wf_expr(*left, input.data@.len() as int),
            full == chain_texts(ASTExpression::Access(Box::new(*access)), d),
            full == match chain_texts(*left, d) {
                Some(rest) => Some(texts_of(result@) + rest),
                None => None,
            },
        ensures
            full == Some(texts_of(result@)),
        decreases *left,
    {
        match left {
            ASTExpression::Access(acc) => {
                let ghost before = texts_of(result@);
                match get_string_from_accessor(input, &acc.accessor) {
                    Some(s) => result.push(s),
                    None => { return None; },
                }
                proof {
                    assert(texts_of(result@) =~= before.push(accessor_text(acc.accessor, d)->Some_0));
                    if let Some(rest) = chain_texts(acc.expression, d) {
                        assert(before + (seq![accessor_text(acc.accessor, d)->Some_0] + rest) =~= texts_of(result@) + rest);
                    }
                }
                left = &acc.expression;
            },
            _ => {
                proof {
                    assert(chain_texts(*left, d) == Some(Seq::<Seq<char>>::empty()));
                    assert(texts_of(result@) + Seq::<Seq<char>>::empty() =~= texts_of(result@));
                }
                break;
            },
        }
    }
    Some(result)
}

} // verus!
