use vstd::prelude::*;
use vstd::string::*;
use crate::diagnostics::location::Range;
use crate::strings::push_char;

verus! {

/// Kinds of inline text.
#[derive(Debug)]
pub enum ASTInlineKind {
    /// `**...**`
    Bold(ASTText),
    /// `{ ... }`
    Javascript(String),
    /// `*...*`
    Italics(ASTText),
    /// `_..._`
    Underline(ASTText),
    /// `` `...` ``
    Code(ASTText),
    /// `++`
    Join,
}

/// Plain text followed by an inline element.
#[derive(Debug)]
pub struct TextPart {
    pub before: String,
    pub text: ASTInline,
}

#[derive(Debug)]
pub struct ASTInline {
    pub kind: ASTInlineKind,
    pub range: Range<usize>,
}

#[derive(Debug)]
pub struct ASTPlainText {
    pub text: String,
    pub range: Range<usize>,
}

/// `#[name(param, param, ...)]`
#[derive(Debug)]
pub struct ASTAttribute {
    pub name: String,
    pub parameters: Vec<String>,
    pub range: Range<usize>,
}

/// Text with inline elements: the parts, each plain text and an inline
/// element, followed by plain text.
#[derive(Debug)]
pub struct ASTText {
    pub parts: Vec<TextPart>,
    pub tail: String,
    pub range: Range<usize>,
}

#[derive(Debug)]
pub struct ASTParagraph {
    pub parts: Vec<TextPart>,
    pub tail: String,
    pub attributes: Vec<ASTAttribute>,
    pub range: Range<usize>,
}

#[derive(Debug)]
pub struct ASTCodeBlock {
    pub language: String,
    pub text: String,
    pub attributes: Vec<ASTAttribute>,
    pub range: Range<usize>,
}

#[derive(Debug)]
pub struct ASTChoice {
    pub text: ASTText,
    pub children: Vec<ASTBlock>,
    /// The modifier (`if`, `not`, ...) and the condition of `{:modifier condition}`.
    pub condition: Option<(String, String)>,
    pub attributes: Vec<ASTAttribute>,
    pub range: Range<usize>,
}

#[derive(Debug)]
pub struct ASTChoiceGroup {
    pub choices: Vec<ASTChoice>,
    pub attributes: Vec<ASTAttribute>,
    pub range: Range<usize>,
}

/// `@{matched}` followed by arms, or `@{:kind matched}` followed by children.
#[derive(Debug)]
pub struct ASTMatch {
    pub matched: String,
    pub kind: Option<String>,
    pub choices: Vec<ASTChoice>,
    pub direct_children: Vec<ASTBlock>,
    pub attributes: Vec<ASTAttribute>,
    pub range: Range<usize>,
}

/// A path: `#`s followed by its title.
#[derive(Debug)]
pub struct ASTHeader {
    pub title: ASTPlainText,
    pub canonical_title: String,
    pub children: Vec<ASTBlock>,
    pub depth: u8,
    pub id: u32,
    pub attributes: Vec<ASTAttribute>,
    pub range: Range<usize>,
}

/// `-> path.to.somewhere`
#[derive(Debug)]
pub struct ASTDivert {
    pub path: Vec<String>,
    pub attributes: Vec<ASTAttribute>,
    pub range: Range<usize>,
}

#[derive(Debug)]
pub enum ASTBlock {
    Paragraph(ASTParagraph),
    CodeBlock(ASTCodeBlock),
    ChoiceGroup(ASTChoiceGroup),
    Divert(ASTDivert),
    Match(ASTMatch),
    Header(ASTHeader),
}

/// The raw text of inline elements: the text without markup.
pub open spec fn inline_kind_raw(k: ASTInlineKind) -> Seq<char>
    decreases k,
{
    match k {
        ASTInlineKind::Bold(t) => text_raw(t),
        ASTInlineKind::Italics(t) => text_raw(t),
        ASTInlineKind::Underline(t) => text_raw(t),
        ASTInlineKind::Code(t) => text_raw(t),
        ASTInlineKind::Javascript(s) => s@,
        ASTInlineKind::Join => seq!['+', '+'],
    }
}

pub open spec fn parts_raw(parts: Seq<TextPart>) -> Seq<char>
    decreases parts,
{
    if parts.len() == 0 {
        seq![]
    } else {
        parts_raw(parts.drop_last()) + parts.last().before@ + inline_kind_raw(parts.last().text.kind)
    }
}

pub open spec fn text_raw(t: ASTText) -> Seq<char>
    decreases t,
{
    parts_raw(t.parts@) + t.tail@
}

impl ASTInlineKind {
    pub fn to_raw(&self) -> (s: String)
        ensures
            s@ == inline_kind_raw(*self),
        decreases self,
    {
        match self {
            ASTInlineKind::Bold(text) => text.to_raw(),
            ASTInlineKind::Code(text) => text.to_raw(),
            ASTInlineKind::Italics(text) => text.to_raw(),
            ASTInlineKind::Javascript(text) => text.clone(),
            ASTInlineKind::Underline(text) => text.to_raw(),
            ASTInlineKind::Join => {
                proof {
                    reveal_strlit("++");
                }
                "++".to_string()
            },
        }
    }
}

impl ASTInline {
    pub fn to_raw(&self) -> (s: String)
        ensures
            s@ == inline_kind_raw(self.kind),
        decreases self,
    {
        self.kind.to_raw()
    }
}

fn raw_of_parts(parts: &Vec<TextPart>, tail: &String) -> (s: String)
    ensures
        s@ == parts_raw(parts@) + tail@,
    decreases parts@,
{
    let mut result = String::new();
    let mut i: usize = 0;
    while i < parts.len()
        invariant
            0 <= i <= parts@.len(),
            result@ == parts_raw(parts@.take(i as int)),
        decreases parts@.len() - i,
    {
        let part = &parts[i];
        result.append(part.before.as_str());
        let inner = part.text.kind.to_raw();
        result.append(inner.as_str());
        assert(parts@.take(i as int + 1).drop_last() =~= parts@.take(i as int));
        i = i + 1;
    }
    assert(parts@.take(parts@.len() as int) =~= parts@);
    result.append(tail.as_str());
    result
}

impl ASTText {
    /// The text without markup.
    pub fn to_raw(&self) -> (s: String)
        ensures
            s@ == text_raw(*self),
        decreases self,
    {
        if self.parts.len() == 0 {
            assert(self.parts@ =~= Seq::<TextPart>::empty());
            return self.tail.clone();
        }
        raw_of_parts(&self.parts, &self.tail)
    }
}

impl ASTParagraph {
    /// The text without markup.
    pub fn to_raw(&self) -> (s: String)
        ensures
            s@ == parts_raw(self.parts@) + self.tail@,
    {
        if self.parts.len() == 0 {
            assert(self.parts@ =~= Seq::<TextPart>::empty());
            return self.tail.clone();
        }
        raw_of_parts(&self.parts, &self.tail)
    }
}

/// The index of the first attribute with the given name.
pub open spec fn first_attribute(attrs: Seq<ASTAttribute>, name: Seq<char>) -> Option<int>
    decreases attrs.len(),
{
    if attrs.len() == 0 {
        None
    } else {
        match first_attribute(attrs.drop_last(), name) {
            Some(i) => Some(i),
            None => if attrs.last().name@ == name { Some(attrs.len() - 1) } else { None },
        }
    }
}

/// Whether the `ind`th parameter of the first attribute named `name` exists (where there is one).
pub open spec fn attribute_param_exists(attrs: Seq<ASTAttribute>, name: Seq<char>, ind: int) -> bool {
    match first_attribute(attrs, name) {
        Some(i) => 0 <= ind < attrs[i].parameters@.len(),
        None => true,
    }
}

pub proof fn lemma_first_attribute(attrs: Seq<ASTAttribute>, name: Seq<char>)
    ensures
        first_attribute(attrs, name) matches Some(i) ==> 0 <= i < attrs.len() && attrs[i].name@ == name
            && forall|j: int| 0 <= j < i ==> attrs[j].name@ != name,
        first_attribute(attrs, name) is None ==> forall|j: int| 0 <= j < attrs.len() ==> attrs[j].name@ != name,
    decreases attrs.len(),
{
    if attrs.len() > 0 {
        lemma_first_attribute(attrs.drop_last(), name);
        assert forall|j: int| 0 <= j < attrs.len() - 1 implies attrs.drop_last()[j] == attrs[j] by {}
    }
}

/// The `ind`th parameter of the first attribute named `att`.
pub fn attribute_parameter<'b>(attrs: &'b Vec<ASTAttribute>, att: &str, ind: usize) -> (r: Option<&'b str>)
    requires
        attribute_param_exists(attrs@, att@, ind as int),
    ensures
        match first_attribute(attrs@, att@) {
            Some(i) => r.is_some() && r.unwrap()@ == attrs@[i].parameters@[ind as int]@,
            None => r.is_none(),
        },
{
    proof {
        lemma_first_attribute(attrs@, att@);
    }
    let mut i: usize = 0;
    while i < attrs.len()
        invariant
            0 <= i <= attrs@.len(),
            forall|j: int| 0 <= j < i ==> attrs@[j].name@ != att@,
            attribute_param_exists(attrs@, att@, ind as int),
            first_attribute(attrs@, att@) matches Some(k) ==> 0 <= k < attrs@.len() && attrs@[k].name@ == att@
                && forall|j: int| 0 <= j < k ==> attrs@[j].name@ != att@,
            first_attribute(attrs@, att@) is None ==> forall|j: int| 0 <= j < attrs@.len() ==> attrs@[j].name@ != att@,
        decreases attrs@.len() - i,
    {
        let item = &attrs[i];
        if str_eq(item.name.as_str(), att) {
            return Some(item.parameters[ind].as_str());
        }
        i = i + 1;
    }
    None
}

/// Whether two strings hold the same characters.
pub fn str_eq(a: &str, b: &str) -> (r: bool)
    ensures
        r == (a@ == b@),
{
    let n = a.unicode_len();
    if n != b.unicode_len() {
        return false;
    }
    let mut i: usize = 0;
    while i < n
        invariant
            n == a@.len(),
            n == b@.len(),
            0 <= i <= n,
            forall|j: int| 0 <= j < i ==> a@[j] == b@[j],
        decreases n - i,
    {
        if a.get_char(i) != b.get_char(i) {
            return false;
        }
        i = i + 1;
    }
    assert(a@ =~= b@);
    true
}

/// What a character of a path name becomes: a space becomes `_`, capital
/// letters become small, `_`, small letters and digits stay, anything else is dropped.
pub open spec fn canonical_char(c: char) -> Seq<char> {
    if c == ' ' {
        seq!['_']
    } else if c == '_' || ('a' <= c && c <= 'z') || ('0' <= c && c <= '9') {
        seq![c]
    } else if 'A' <= c && c <= 'Z' {
        seq![((c as u32) + 32) as char]
    } else {
        seq![]
    }
}

pub open spec fn spec_canonicalize(s: Seq<char>) -> Seq<char>
    decreases s.len(),
{
    if s.len() == 0 {
        seq![]
    } else {
        spec_canonicalize(s.drop_last()) + canonical_char(s.last())
    }
}

/// The characters a path name may hold.
pub open spec fn is_path_char(c: char) -> bool {
    c == '_' || ('a' <= c && c <= 'z') || ('0' <= c && c <= '9')
}

impl ASTHeader {
    /// Path names can only contain lowercase letters, digits and underscores.
    /// Empty spaces are replaced with underscores.
    /// Capital letters are replaced with their lowercase variants.
    /// Any other character gets erased.
    pub fn canonicalize_name(name: &str) -> (canonical: String)
        ensures
            canonical@ == spec_canonicalize(name@),
    {
        let mut canonical = String::new();
        let n = name.unicode_len();
        let mut i: usize = 0;
        while i < n
            invariant
                n == name@.len(),
                0 <= i <= n,
                canonical@ == spec_canonicalize(name@.take(i as int)),
            decreases n - i,
        {
            let character = name.get_char(i);
            assert(name@.take(i as int + 1).drop_last() =~= name@.take(i as int));
            if character == ' ' {
                push_char(&mut canonical, '_');
            } else if character == '_' || ('a' <= character && character <= 'z') || ('0' <= character && character <= '9') {
                push_char(&mut canonical, character);
            } else if 'A' <= character && character <= 'Z' {
                let lower = ((character as u8) + 32) as char;
                push_char(&mut canonical, lower);
            }
            i = i + 1;
        }
        assert(name@.take(n as int) =~= name@);
        canonical
    }
}

/// A canonical name holds only small letters, digits and underscores.
pub proof fn law_canonical_chars(s: Seq<char>)
    ensures
        forall|i: int| 0 <= i < spec_canonicalize(s).len() ==> is_path_char(#[trigger] spec_canonicalize(s)[i]),
    decreases s.len(),
{
    if s.len() > 0 {
        law_canonical_chars(s.drop_last());
        let prev = spec_canonicalize(s.drop_last());
        let last = canonical_char(s.last());
        assert forall|i: int| 0 <= i < spec_canonicalize(s).len() implies is_path_char(#[trigger] spec_canonicalize(s)[i]) by {
            if i < prev.len() {
                assert(spec_canonicalize(s)[i] == prev[i]);
            } else {
                assert(spec_canonicalize(s)[i] == last[i - prev.len()]);
            }
        }
    }
}

/// A name made only of path characters is its own canonical name.
pub proof fn lemma_canonical_fixed(s: Seq<char>)
    requires
        forall|i: int| 0 <= i < s.len() ==> is_path_char(#[trigger] s[i]),
    ensures
        spec_canonicalize(s) == s,
    decreases s.len(),
{
    if s.len() > 0 {
        assert(is_path_char(s[s.len() - 1]));
        lemma_canonical_fixed(s.drop_last());
        assert(s.drop_last().push(s.last()) =~= s);
    }
}

/// Canonicalizing a canonical name changes nothing.
pub proof fn law_canonicalize_idempotent(s: Seq<char>)
    ensures
        spec_canonicalize(spec_canonicalize(s)) == spec_canonicalize(s),
{
    law_canonical_chars(s);
    lemma_canonical_fixed(spec_canonicalize(s));
}

/// Nodes that carry attributes.
pub trait WithAttributes {
    spec fn attribute_list(&self) -> Seq<ASTAttribute>;

    /// The `ind`th parameter of the first attribute named `att`.
    fn get_attribute_n(&self, att: &str, ind: usize) -> (r: Option<&str>)
        requires
            attribute_param_exists(self.attribute_list(), att@, ind as int),
        ensures
            match first_attribute(self.attribute_list(), att@) {
                Some(i) => r.is_some() && r.unwrap()@ == self.attribute_list()[i].parameters@[ind as int]@,
                None => r.is_none(),
            },
    ;
}

impl WithAttributes for ASTParagraph {
    open spec fn attribute_list(&self) -> Seq<ASTAttribute> {
        self.attributes@
    }

    fn get_attribute_n(&self, att: &str, ind: usize) -> Option<&str> {
        attribute_parameter(&self.attributes, att, ind)
    }
}

impl WithAttributes for ASTCodeBlock {
    open spec fn attribute_list(&self) -> Seq<ASTAttribute> {
        self.attributes@
    }

    fn get_attribute_n(&self, att: &str, ind: usize) -> Option<&str> {
        attribute_parameter(&self.attributes, att, ind)
    }
}

impl WithAttributes for ASTChoice {
    open spec fn attribute_list(&self) -> Seq<ASTAttribute> {
        self.attributes@
    }

    fn get_attribute_n(&self, att: &str, ind: usize) -> Option<&str> {
        attribute_parameter(&self.attributes, att, ind)
    }
}

impl WithAttributes for ASTChoiceGroup {
    open spec fn attribute_list(&self) -> Seq<ASTAttribute> {
        self.attributes@
    }

    fn get_attribute_n(&self, att: &str, ind: usize) -> Option<&str> {
        attribute_parameter(&self.attributes, att, ind)
    }
}

impl WithAttributes for ASTMatch {
    open spec fn attribute_list(&self) -> Seq<ASTAttribute> {
        self.attributes@
    }

    fn get_attribute_n(&self, att: &str, ind: usize) -> Option<&str> {
        attribute_parameter(&self.attributes, att, ind)
    }
}

impl WithAttributes for ASTHeader {
    open spec fn attribute_list(&self) -> Seq<ASTAttribute> {
        self.attributes@
    }

    fn get_attribute_n(&self, att: &str, ind: usize) -> Option<&str> {
        attribute_parameter(&self.attributes, att, ind)
    }
}

impl WithAttributes for ASTDivert {
    open spec fn attribute_list(&self) -> Seq<ASTAttribute> {
        self.attributes@
    }

    fn get_attribute_n(&self, att: &str, ind: usize) -> Option<&str> {
        attribute_parameter(&self.attributes, att, ind)
    }
}

impl WithAttributes for ASTBlock {
    open spec fn attribute_list(&self) -> Seq<ASTAttribute> {
        match self {
            ASTBlock::ChoiceGroup(ch) => ch.attributes@,
            ASTBlock::CodeBlock(code) => code.attributes@,
            ASTBlock::Divert(div) => div.attributes@,
            ASTBlock::Header(h) => h.attributes@,
            ASTBlock::Match(m) => m.attributes@,
            ASTBlock::Paragraph(p) => p.attributes@,
        }
    }

    fn get_attribute_n(&self, att: &str, ind: usize) -> Option<&str> {
        match self {
            ASTBlock::ChoiceGroup(ch) => ch.get_attribute_n(att, ind),
            ASTBlock::CodeBlock(code) => code.get_attribute_n(att, ind),
            ASTBlock::Divert(div) => div.get_attribute_n(att, ind),
            ASTBlock::Header(h) => h.get_attribute_n(att, ind),
            ASTBlock::Match(m) => m.get_attribute_n(att, ind),
            ASTBlock::Paragraph(p) => p.get_attribute_n(att, ind),
        }
    }
}

} // verus!
