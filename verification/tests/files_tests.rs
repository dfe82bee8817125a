use storytell::compiler::base::files::{BlobEntry, CompilerFileHost, File, FileDiagnostic};
use storytell::compiler::base::Compiler;
use storytell::compiler::json_compiler::{JSONCompilerContext, JSONCompilerProvider};
use storytell::deserialization::JSONSerializable;
use storytell::diagnostics::diagnostic::{Diagnostic, DiagnosticVariants};
use storytell::diagnostics::location::Range;

fn file_entry(name: &str, content: &str) -> BlobEntry {
    BlobEntry::File { name: name.to_string(), content: content.to_string() }
}

fn dir_entry(name: &str, entries: Vec<BlobEntry>) -> BlobEntry {
    BlobEntry::Directory { name: name.to_string(), entries }
}

fn file_of<'a>(host: &'a CompilerFileHost, id: u16) -> Option<&'a File> {
    host.files.iter().find(|f| f.id == id)
}

fn has_dir(host: &CompilerFileHost, id: u16) -> bool {
    host.dirs.iter().any(|d| d.id == id)
}

#[test]
fn host_starts_empty() {
    let host = CompilerFileHost::new("/stories", 1);
    assert_eq!(host.counter, 1);
    assert!(host.files.is_empty());
    assert!(host.dirs.is_empty());
    assert_eq!(host.cwd, "/stories");
}

#[test]
fn create_blob_hands_out_ids_and_paths() {
    let mut host = CompilerFileHost::new("/stories", 1);
    let (dir, dir_path) = host.create_blob("chapters".to_string(), None, true);
    assert_eq!(dir, 1);
    assert_eq!(dir_path, vec!["/stories".to_string(), "chapters".to_string()]);
    let (file, file_path) = host.create_blob("one.st".to_string(), Some(dir), false);
    assert_eq!(file, 2);
    assert_eq!(file_path, vec!["/stories".to_string(), "chapters".to_string(), "one.st".to_string()]);
    assert_eq!(host.counter, 3);
    let f = file_of(&host, file).unwrap();
    assert_eq!(f.parent, Some(dir));
    assert_eq!(f.path, vec![dir]);
    assert!(has_dir(&host, dir));
    let d = host.dirs.iter().find(|d| d.id == dir).unwrap();
    assert_eq!(d.compile(), "{\"name\":\"chapters\",\"id\":1,\"children\":[2],\"parent\":null}");
}

#[test]
fn rename_blob_hands_back_the_old_path() {
    let mut host = CompilerFileHost::new("/stories", 1);
    let (dir, _) = host.create_blob("chapters".to_string(), None, true);
    let (file, _) = host.create_blob("one.st".to_string(), Some(dir), false);
    let old = host.rename_blob(file, "two.st".to_string());
    assert_eq!(old, Some(vec!["/stories".to_string(), "chapters".to_string(), "one.st".to_string()]));
    assert_eq!(file_of(&host, file).unwrap().name, "two.st");
    let old_dir = host.rename_blob(dir, "parts".to_string());
    assert_eq!(old_dir, Some(vec!["/stories".to_string(), "chapters".to_string()]));
    assert_eq!(host.build_path(&vec![dir], "two.st"), vec!["/stories".to_string(), "parts".to_string(), "two.st".to_string()]);
    assert_eq!(host.rename_blob(99, "x".to_string()), None);
}

#[test]
fn delete_blob_takes_what_a_directory_holds() {
    let mut host = CompilerFileHost::new("/stories", 1);
    let (outer, _) = host.create_blob("outer".to_string(), None, true);
    let (inner, _) = host.create_blob("inner".to_string(), Some(outer), true);
    let (deep, _) = host.create_blob("deep.st".to_string(), Some(inner), false);
    let (other, _) = host.create_blob("other.st".to_string(), Some(outer), false);
    let (path, is_dir) = host.delete_blob(inner);
    assert!(is_dir);
    assert_eq!(path, vec!["/stories".to_string(), "outer".to_string(), "inner".to_string()]);
    assert!(!has_dir(&host, inner));
    assert!(file_of(&host, deep).is_none());
    assert!(file_of(&host, other).is_some());
    let d = host.dirs.iter().find(|d| d.id == outer).unwrap();
    assert_eq!(d.compile(), "{\"name\":\"outer\",\"id\":1,\"children\":[4],\"parent\":null}");
}

#[test]
fn delete_file_leaves_the_rest() {
    let mut host = CompilerFileHost::new("/stories", 1);
    let (a, _) = host.create_blob("a.st".to_string(), None, false);
    let (b, _) = host.create_blob("b.st".to_string(), None, false);
    let (path, is_dir) = host.delete_blob(a);
    assert!(!is_dir);
    assert_eq!(path, vec!["/stories".to_string(), "a.st".to_string()]);
    assert!(file_of(&host, a).is_none());
    assert!(file_of(&host, b).is_some());
    assert_eq!(host.counter, 3);
}

#[test]
fn create_then_delete_restores_the_blobs() {
    let mut host = CompilerFileHost::new("/stories", 1);
    let (dir, _) = host.create_blob("dir".to_string(), None, true);
    let (f, _) = host.create_blob("f.st".to_string(), Some(dir), false);
    let before = host.dirs.iter().find(|d| d.id == dir).unwrap().compile();
    let (g, _) = host.create_blob("g.st".to_string(), Some(dir), false);
    host.delete_blob(g);
    let after = host.dirs.iter().find(|d| d.id == dir).unwrap().compile();
    assert_eq!(before, after);
    assert!(file_of(&host, f).is_some());
    assert_eq!(host.files.len(), 1);
}

#[test]
fn load_dir_numbers_entries_depth_first() {
    let mut host = CompilerFileHost::new("/stories", 1);
    let entries = vec![
        file_entry("a.st", ""),
        dir_entry("d", vec![file_entry("b.st", ""), file_entry("c.st", "")]),
        file_entry("e.st", ""),
    ];
    let top = host.load_cwd(&entries);
    assert_eq!(host.counter, 6);
    assert_eq!(file_of(&host, 1).unwrap().name, "a.st");
    assert!(has_dir(&host, 2));
    assert_eq!(file_of(&host, 3).unwrap().path, vec![2]);
    assert_eq!(file_of(&host, 4).unwrap().parent, Some(2));
    assert_eq!(file_of(&host, 5).unwrap().name, "e.st");
    let mut ids: Vec<String> = vec![];
    for id in [1u16, 2, 3, 4, 5] {
        if top.compile().contains(&id.to_string()) {
            ids.push(id.to_string());
        }
    }
    assert_eq!(ids, vec!["1".to_string(), "2".to_string(), "5".to_string()]);
}

#[test]
fn refresh_starts_over() {
    let mut host = CompilerFileHost::new("/stories", 1);
    host.create_blob("old.st".to_string(), None, false);
    host.create_blob("older.st".to_string(), None, false);
    let top = host.refresh(&vec![file_entry("new.st", "")]);
    assert_eq!(top.compile(), "[1]");
    assert_eq!(host.counter, 2);
    assert_eq!(host.files.len(), 1);
    assert_eq!(file_of(&host, 1).unwrap().name, "new.st");
}

#[test]
fn parse_file_keeps_the_blocks() {
    let mut host = CompilerFileHost::new("/stories", 1);
    let (f, _) = host.create_blob("a.st".to_string(), None, false);
    let res = host.parse_file(f, "# Title\nSome text\n".to_string());
    let (text, diagnostics) = res.unwrap();
    assert_eq!(text, "# Title\nSome text\n");
    assert!(diagnostics.is_empty());
    assert_eq!(file_of(&host, f).unwrap().parsed_content.len(), 1);
    assert!(host.parse_file(42, String::new()).is_none());
}

#[test]
fn init_fs_compiles_every_file() {
    let mut compiler = Compiler::<JSONCompilerProvider>::new("/stories", 1, JSONCompilerContext::new(None));
    let entries = vec![
        file_entry("a.st", "# A\nText of a\n"),
        dir_entry("d", vec![file_entry("b.st", "no header here\n")]),
    ];
    let (top, files) = compiler.init_fs(&entries);
    assert_eq!(top.compile().len(), "[1,2]".len());
    assert_eq!(files.len(), 2);
    assert_eq!(files[0].id, 1);
    assert!(files[0].compiled_content.is_some());
    assert_eq!(files[1].id, 3);
    assert!(files[1].compiled_content.is_none());
    assert_eq!(files[1].diagnostics.last().unwrap().msg, "File must contain just one top-level (#) path.");
    assert_eq!(files[1].content, "no header here\n");
}

#[test]
fn reset_forgets_and_reloads() {
    let mut compiler = Compiler::<JSONCompilerProvider>::new("/stories", 1, JSONCompilerContext::new(None));
    compiler.host.create_blob("gone.st".to_string(), None, false);
    let (top, files) = compiler.reset(&vec![file_entry("a.st", "# A\n")]);
    assert_eq!(top.compile(), "[1]");
    assert_eq!(files.len(), 1);
    assert_eq!(compiler.host.files.len(), 1);
}

#[test]
fn compile_file_with_content_sets_the_blocks() {
    let mut compiler = Compiler::<JSONCompilerProvider>::new("/stories", 1, JSONCompilerContext::new(None));
    let (f, _) = compiler.host.create_blob("a.st".to_string(), None, false);
    let (compiled, diagnostics) = compiler.compile_file_with_content(f, "# Hello\nWorld\n");
    assert!(compiled.is_some());
    assert!(diagnostics.is_empty());
    assert_eq!(file_of(&compiler.host, f).unwrap().parsed_content.len(), 1);
    let (compiled, text, _) = compiler.compile_file(f, "plain\n".to_string());
    assert!(compiled.is_none());
    assert_eq!(text, "plain\n");
}

#[test]
fn json_of_plain_values() {
    assert_eq!(Range::new(3, 7).compile(), "{\"start\":3,\"end\":7}");
    assert_eq!(42u16.compile(), "42");
    assert_eq!("a \"quoted\" word".to_string().compile(), "\"a \\\"quoted\\\" word\"");
    assert_eq!("plain".compile(), "\"plain\"");
    assert_eq!(None::<u16>.compile(), "null");
    assert_eq!(Some(5u16).compile(), "5");
    assert_eq!(vec![1u16, 2, 3].compile(), "[1,2,3]");
    assert_eq!(Vec::<u16>::new().compile(), "[]");
}

#[test]
fn json_of_files_and_diagnostics() {
    let f = File { name: "intro.story.st".to_string(), parsed_content: vec![], path: vec![], parent: Some(4), id: 9 };
    assert_eq!(f.compile(), "{\"name\":\"intro\",\"parent\":4,\"id\":9}");
    let d = Diagnostic { range: Range::new(0, 2), msg: "Bad\nthing".to_string(), variant: DiagnosticVariants::Error };
    assert_eq!(d.compile(), "{\"message\":\"Bad\\nthing\",\"range\":{\"start\":0,\"end\":2}}");
    let empty = FileDiagnostic { file_id: 1, diagnostics: vec![] };
    assert_eq!(empty.compile(), "null");
    let full = FileDiagnostic { file_id: 1, diagnostics: vec![d] };
    assert_eq!(full.compile(), "[{\"message\":\"Bad\\nthing\",\"range\":{\"start\":0,\"end\":2}}]");
}
