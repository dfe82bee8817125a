use vstd::prelude::*;
use crate::compiler::base::BlobId;
use crate::compiler::base::files::{BlobSet, Directory, File, FileDiagnostic, blob_set_items};
use crate::compiler::json_compiler::compile::{join_commas, json_range, safe_range};
use crate::diagnostics::diagnostic::Diagnostic;
use crate::diagnostics::location::Range;
use crate::strings::{push_char, spec_usize_str, usize_to_string};

verus! {

/// A hexadecimal digit, in lower case.
pub open spec fn hex_digit(n: u32) -> char {
    if n < 10 {
        (48 + n) as char
    } else {
        (87 + n) as char
    }
}

/// How `serde_json` writes one character inside a string literal: quote and
/// backslash behind a backslash, the usual short escapes for backspace, tab,
/// line feed, form feed and carriage return, `\u00XX` for the other control
/// characters, and every other character as it is.
pub open spec fn json_escaped_char(c: char) -> Seq<char> {
    if c == '"' {
        seq!['\\', '"']
    } else if c == '\\' {
        seq!['\\', '\\']
    } else if (c as u32) == 8 {
        seq!['\\', 'b']
    } else if c == '\t' {
        seq!['\\', 't']
    } else if c == '\n' {
        seq!['\\', 'n']
    } else if (c as u32) == 12 {
        seq!['\\', 'f']
    } else if c == '\r' {
        seq!['\\', 'r']
    } else if (c as u32) < 32 {
        seq!['\\', 'u', '0', '0', hex_digit((c as u32) / 16), hex_digit((c as u32) % 16)]
    } else {
        seq![c]
    }
}

/// The characters of a string, each as `serde_json` writes it.
pub open spec fn json_escaped(s: Seq<char>) -> Seq<char>
    decreases s.len(),
{
    if s.len() == 0 {
        seq![]
    } else {
        json_escaped(s.drop_last()) + json_escaped_char(s.last())
    }
}

/// What `serde_json` writes for a string value: the string as a JSON
/// string literal, quoted and escaped.
pub open spec fn json_string_literal(s: Seq<char>) -> Seq<char> {
    seq!['"'] + json_escaped(s) + seq!['"']
}

/// `serde_json::Value::String(..).to_string()`: the string quoted, with
/// quote, backslash and the control characters escaped as
/// `json_string_literal` says.
#[verifier::external_body]
fn json_string(s: &str) -> (r: String)
    ensures
        r@ == json_string_literal(s@),
{
    serde_json::Value::String(s.to_string()).to_string()
}

/// A value that can be written as JSON.
pub trait JSONSerializable {
    /// Whether `s` is this value written as JSON.
    spec fn json_of(&self, s: Seq<char>) -> bool;

    fn compile(&self) -> (s: String)
        ensures
            self.json_of(s@),
    ;
}

/// Numbers written as JSON numbers.
pub open spec fn json_u16(n: u16) -> Seq<char> {
    spec_usize_str(n as usize)
}

/// A list written as a JSON array of the given parts.
pub open spec fn json_array(parts: Seq<Seq<char>>) -> Seq<char> {
    seq!['['] + join_commas(parts) + seq![']']
}

/// Ids written as JSON numbers.
pub open spec fn json_ids(ids: Seq<BlobId>) -> Seq<Seq<char>> {
    ids.map_values(|id: BlobId| json_u16(id))
}

/// A set of ids as a JSON array: each id once, in some order.
pub open spec fn json_id_set(items: Set<BlobId>, s: Seq<char>) -> bool {
    exists|ids: Seq<BlobId>|
        ids.no_duplicates() && ids.to_set() == items && s == json_array(#[trigger] json_ids(ids))
}

/// The part of a name before its first dot.
pub open spec fn name_stem(name: Seq<char>) -> Seq<char>
    decreases name.len(),
{
    if name.len() == 0 {
        name
    } else if name[0] == '.' {
        Seq::empty()
    } else {
        seq![name[0]] + name_stem(name.drop_first())
    }
}

/// An optional id as JSON: the id, or `null`.
pub open spec fn json_opt_id(id: Option<BlobId>) -> Seq<char> {
    match id {
        Some(i) => json_u16(i),
        None => "null"@,
    }
}

/// A diagnostic as a JSON object.
pub open spec fn json_diagnostic(d: Diagnostic) -> Seq<char> {
    "{\"message\":"@ + json_string_literal(d.msg@) + ",\"range\":"@ + json_range(d.range) + "}"@
}

/// A file as a JSON object: its name without extension, its parent, its id.
pub open spec fn json_file(f: File) -> Seq<char> {
    "{\"name\":"@ + json_string_literal(name_stem(f.name@)) + ",\"parent\":"@ + json_opt_id(f.parent)
        + ",\"id\":"@ + json_u16(f.id) + "}"@
}

/// Whether `s` is a directory as a JSON object: its name, its id, the ids it
/// holds, its parent.
pub open spec fn json_directory(d: Directory, s: Seq<char>) -> bool {
    exists|children: Seq<char>|
        json_id_set(blob_set_items(d.children), children) && s == "{\"name\":"@ + json_string_literal(d.name@)
            + ",\"id\":"@ + json_u16(d.id) + ",\"children\":"@ + children + ",\"parent\":"@ + json_opt_id(
            d.parent,
        ) + "}"@
}

fn u16_to_string(n: u16) -> (s: String)
    ensures
        s@ == json_u16(n),
{
    usize_to_string(n as usize)
}

/// The part of a name before its first dot.
fn stem_of(name: &str) -> (r: String)
    ensures
        r@ == name_stem(name@),
{
    let n = name.unicode_len();
    let mut r = String::new();
    let mut i: usize = 0;
    while i < n
        invariant
            n == name@.len(),
            i <= n,
            forall|j: int| 0 <= j < i ==> name@[j] != '.',
            r@ == name@.take(i as int),
        ensures
            i <= n,
            i == n || name@[i as int] == '.',
            forall|j: int| 0 <= j < i ==> name@[j] != '.',
            r@ == name@.take(i as int),
        decreases n - i,
    {
        let c = name.get_char(i);
        if c == '.' {
            break;
        }
        push_char(&mut r, c);
        assert(r@ =~= name@.take(i + 1));
        i = i + 1;
    }
    proof {
        lemma_name_stem(name@, i as int);
    }
    r
}

/// Up to the first dot, the stem is the name.
proof fn lemma_name_stem(name: Seq<char>, i: int)
    requires
        0 <= i <= name.len(),
        forall|j: int| 0 <= j < i ==> name[j] != '.',
        i == name.len() || name[i] == '.',
    ensures
        name_stem(name) == name.take(i),
    decreases i,
{
    if i == 0 {
        if name.len() > 0 {
            assert(name[0] == '.');
        }
        assert(name.take(0) =~= Seq::<char>::empty());
    } else {
        lemma_name_stem(name.drop_first(), i - 1);
        assert(name.take(i) =~= seq![name[0]] + name.drop_first().take(i - 1));
    }
}

fn opt_id_to_string(id: Option<BlobId>) -> (s: String)
    ensures
        s@ == json_opt_id(id),
{
    match id {
        Some(i) => u16_to_string(i),
        None => {
            let s = String::from_str("null");
            s
        },
    }
}

impl JSONSerializable for Range<usize> {
    open spec fn json_of(&self, s: Seq<char>) -> bool {
        s == json_range(*self)
    }

    fn compile(&self) -> (s: String) {
        safe_range(self)
    }
}

impl JSONSerializable for Diagnostic {
    open spec fn json_of(&self, s: Seq<char>) -> bool {
        s == json_diagnostic(*self)
    }

    fn compile(&self) -> (s: String) {
        let mut s = String::new();
        s.append("{\"message\":");
        s.append(json_string(self.msg.as_str()).as_str());
        s.append(",\"range\":");
        s.append(safe_range(&self.range).as_str());
        s.append("}");
        assert(s@ =~= json_diagnostic(*self));
        s
    }
}

impl JSONSerializable for u16 {
    open spec fn json_of(&self, s: Seq<char>) -> bool {
        s == json_u16(*self)
    }

    fn compile(&self) -> (s: String) {
        u16_to_string(*self)
    }
}

impl JSONSerializable for String {
    open spec fn json_of(&self, s: Seq<char>) -> bool {
        s == json_string_literal(self@)
    }

    fn compile(&self) -> (s: String) {
        json_string(self.as_str())
    }
}

impl<'a> JSONSerializable for &'a str {
    open spec fn json_of(&self, s: Seq<char>) -> bool {
        s == json_string_literal((*self)@)
    }

    fn compile(&self) -> (s: String) {
        json_string(*self)
    }
}

impl<T: JSONSerializable> JSONSerializable for Option<T> {
    open spec fn json_of(&self, s: Seq<char>) -> bool {
        match self {
            Some(v) => v.json_of(s),
            None => s == "null"@,
        }
    }

    fn compile(&self) -> (s: String) {
        match self {
            Some(v) => v.compile(),
            None => String::from_str("null"),
        }
    }
}

impl<T: JSONSerializable> JSONSerializable for Vec<T> {
    open spec fn json_of(&self, s: Seq<char>) -> bool {
        exists|parts: Seq<Seq<char>>|
            parts.len() == self@.len() && (forall|i: int|
                0 <= i < parts.len() ==> self@[i].json_of(#[trigger] parts[i])) && s == json_array(parts)
    }

    fn compile(&self) -> (s: String) {
        let ghost mut parts: Seq<Seq<char>> = Seq::empty();
        let mut inner = String::new();
        let mut i: usize = 0;
        while i < self.len()
            invariant
                0 <= i <= self@.len(),
                parts.len() == i,
                forall|j: int| 0 <= j < i ==> self@[j].json_of(#[trigger] parts[j]),
                inner@ == join_commas(parts),
            decreases self@.len() - i,
        {
            let part = self[i].compile();
            if i > 0 {
                push_char(&mut inner, ',');
            }
            inner.append(part.as_str());
            proof {
                let old_parts = parts;
                parts = parts.push(part@);
                assert(parts.drop_last() =~= old_parts);
            }
            i = i + 1;
        }
        let mut s = String::new();
        push_char(&mut s, '[');
        s.append(inner.as_str());
        push_char(&mut s, ']');
        assert(s@ =~= json_array(parts));
        s
    }
}

impl JSONSerializable for FileDiagnostic {
    open spec fn json_of(&self, s: Seq<char>) -> bool {
        if self.diagnostics@.len() == 0 {
            s == "null"@
        } else {
            self.diagnostics.json_of(s)
        }
    }

    fn compile(&self) -> (s: String) {
        if self.diagnostics.len() == 0 {
            String::from_str("null")
        } else {
            self.diagnostics.compile()
        }
    }
}

impl JSONSerializable for BlobSet {
    open spec fn json_of(&self, s: Seq<char>) -> bool {
        json_id_set(blob_set_items(*self), s)
    }

    fn compile(&self) -> (s: String) {
        let ids = self.to_vec();
        let ghost parts = ids@.map_values(|id: BlobId| json_u16(id));
        let mut inner = String::new();
        let mut i: usize = 0;
        while i < ids.len()
            invariant
                0 <= i <= ids@.len(),
                parts == ids@.map_values(|id: BlobId| json_u16(id)),
                inner@ == join_commas(parts.take(i as int)),
            decreases ids@.len() - i,
        {
            let part = u16_to_string(ids[i]);
            if i > 0 {
                push_char(&mut inner, ',');
            }
            inner.append(part.as_str());
            proof {
                let t = parts.take(i + 1);
                assert(t.drop_last() =~= parts.take(i as int));
                assert(inner@ =~= join_commas(t));
            }
            i = i + 1;
        }
        assert(parts.take(ids@.len() as int) =~= parts);
        let mut s = String::new();
        push_char(&mut s, '[');
        s.append(inner.as_str());
        push_char(&mut s, ']');
        assert(s@ =~= json_array(parts));
        assert(parts == json_ids(ids@));
        s
    }
}

impl JSONSerializable for File {
    open spec fn json_of(&self, s: Seq<char>) -> bool {
        s == json_file(*self)
    }

    fn compile(&self) -> (s: String) {
        let stem = stem_of(self.name.as_str());
        let mut s = String::new();
        s.append("{\"name\":");
        s.append(json_string(stem.as_str()).as_str());
        s.append(",\"parent\":");
        s.append(opt_id_to_string(self.parent).as_str());
        s.append(",\"id\":");
        s.append(u16_to_string(self.id).as_str());
        s.append("}");
        assert(s@ =~= json_file(*self));
        s
    }
}

impl JSONSerializable for Directory {
    open spec fn json_of(&self, s: Seq<char>) -> bool {
        json_directory(*self, s)
    }

    fn compile(&self) -> (s: String) {
        let children = self.children.compile();
        let mut s = String::new();
        s.append("{\"name\":");
        s.append(json_string(self.name.as_str()).as_str());
        s.append(",\"id\":");
        s.append(u16_to_string(self.id).as_str());
        s.append(",\"children\":");
        s.append(children.as_str());
        s.append(",\"parent\":");
        s.append(opt_id_to_string(self.parent).as_str());
        s.append("}");
        assert(s@ =~= "{\"name\":"@ + json_string_literal(self.name@) + ",\"id\":"@ + json_u16(self.id)
            + ",\"children\":"@ + children@ + ",\"parent\":"@ + json_opt_id(self.parent) + "}"@);
        s
    }
}

} // verus!
