use vstd::prelude::*;
use vstd::string::*;
use crate::diagnostics::location::Range;
use crate::strings::push_char;

verus! {

/// A diagnostic template: a code and a message in which each `$` stands for a variable.
pub struct DiagnosticMessage {
    pub code: &'static str,
    pub message: &'static str,
}

/// Number of `$` placeholders in a message.
pub open spec fn count_vars(msg: Seq<char>) -> nat
    decreases msg.len(),
{
    if msg.len() == 0 {
        0
    } else {
        count_vars(msg.drop_last()) + if msg.last() == '$' { 1nat } else { 0nat }
    }
}

/// The message with its `$` placeholders, from the left, replaced by the variables in order.
pub open spec fn spec_fill(msg: Seq<char>, vars: Seq<Seq<char>>) -> Seq<char>
    decreases msg.len(),
{
    if msg.len() == 0 {
        seq![]
    } else if msg.last() == '$' {
        spec_fill(msg.drop_last(), vars) + (if count_vars(msg.drop_last()) < vars.len() {
            vars[count_vars(msg.drop_last()) as int]
        } else {
            Seq::<char>::empty()
        })
    } else {
        spec_fill(msg.drop_last(), vars) + seq![msg.last()]
    }
}

pub open spec fn spec_format_diagnostic(msg: Seq<char>, vars: Seq<Seq<char>>) -> Seq<char> {
    if vars.len() == 0 {
        msg
    } else {
        spec_fill(msg, vars)
    }
}

pub open spec fn str_views(vars: Seq<&str>) -> Seq<Seq<char>> {
    vars.map_values(|v: &str| v@)
}

/// Fills in the placeholders of a diagnostic message; a placeholder with no
/// variable left for it is dropped.
pub fn format_diagnostic(diagnostic: &DiagnosticMessage, vars: Vec<&str>) -> (res: String)
    ensures
        res@ == spec_format_diagnostic(diagnostic.message@, str_views(vars@)),
{
    let msg = diagnostic.message;
    if vars.len() == 0 {
        return msg.to_string();
    }
    let ghost vs = str_views(vars@);
    let mut ind: usize = 0;
    let mut new_str = String::new();
    let n = msg.unicode_len();
    let mut i: usize = 0;
    while i < n
        invariant
            n == msg@.len(),
            0 <= i <= n,
            vs == str_views(vars@),
            ind == count_vars(msg@.take(i as int)),
            new_str@ == spec_fill(msg@.take(i as int), vs),
        decreases n - i,
    {
        let ch = msg.get_char(i);
        proof {
            assert(msg@.take(i as int + 1).drop_last() =~= msg@.take(i as int));
            lemma_count_vars_prefix(msg@, i as int + 1);
            lemma_count_vars_bound(msg@.take(i as int));
        }
        if ch == '$' {
            if ind < vars.len() {
                new_str.append(vars[ind]);
            }
            ind = ind + 1;
        } else {
            push_char(&mut new_str, ch);
        }
        i = i + 1;
    }
    assert(msg@.take(n as int) =~= msg@);
    new_str
}

pub proof fn lemma_count_vars_prefix(msg: Seq<char>, i: int)
    requires
        0 <= i <= msg.len(),
    ensures
        count_vars(msg.take(i)) <= count_vars(msg),
    decreases msg.len(),
{
    if i == msg.len() {
        assert(msg.take(i) =~= msg);
    } else {
        lemma_count_vars_prefix(msg.drop_last(), i);
        assert(msg.drop_last().take(i) =~= msg.take(i));
    }
}

pub proof fn lemma_count_vars_bound(msg: Seq<char>)
    ensures
        count_vars(msg) <= msg.len(),
    decreases msg.len(),
{
    if msg.len() > 0 {
        lemma_count_vars_bound(msg.drop_last());
    }
}

#[derive(Clone, Debug, PartialEq, Eq)]
pub enum DiagnosticVariants {
    Suggestion,
    Warning,
    Error,
}

#[derive(Clone, Debug, PartialEq, Eq)]
pub struct Diagnostic {
    pub range: Range<usize>,
    pub msg: String,
    pub variant: DiagnosticVariants,
}

impl Diagnostic {
    /// An error diagnostic built from a template and its variables.
    pub fn error(template: &DiagnosticMessage, range: Range<usize>, vars: Vec<&str>) -> (d: Diagnostic)
        ensures
            d.msg@ == spec_format_diagnostic(template.message@, str_views(vars@)),
            d.range == range,
            d.variant == DiagnosticVariants::Error,
    {
        Diagnostic { msg: format_diagnostic(template, vars), range, variant: DiagnosticVariants::Error }
    }

    /// The printable form `Error: <message>` followed by a newline.
    pub fn to_string(&self) -> (s: String)
        ensures
            s@ == seq!['E', 'r', 'r', 'o', 'r', ':', ' '] + self.msg@ + seq!['\n'],
    {
        let mut s = String::new();
        s.append("Error: ");
        s.append(self.msg.as_str());
        s.append("\n");
        proof {
            reveal_strlit("Error: ");
            reveal_strlit("\n");
        }
        s
    }
}

/// A diagnostic as contracts speak of it: its range, its message and its kind.
pub open spec fn diag_view(d: Diagnostic) -> (Range<usize>, Seq<char>, DiagnosticVariants) {
    (d.range, d.msg@, d.variant)
}

pub open spec fn diag_views(v: Seq<Diagnostic>) -> Seq<(Range<usize>, Seq<char>, DiagnosticVariants)> {
    v.map_values(|d: Diagnostic| diag_view(d))
}

pub proof fn lemma_diag_views_len(v: Seq<Diagnostic>)
    ensures
        diag_views(v).len() == v.len(),
{
}

pub proof fn lemma_diag_views_push(v: Seq<Diagnostic>, d: Diagnostic)
    ensures
        diag_views(v.push(d)) == diag_views(v).push(diag_view(d)),
{
    assert(diag_views(v.push(d)) =~= diag_views(v).push(diag_view(d)));
}

/// Something that gathers diagnostics.
pub trait DiagnosticCollector {
    fn add_diagnostic(&mut self, err: Diagnostic);
}

} // verus!
