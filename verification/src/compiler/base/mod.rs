use vstd::prelude::*;
use vstd::string::*;
use crate::diagnostics::diagnostic::{Diagnostic, DiagnosticMessage, DiagnosticVariants, diag_views, lemma_diag_views_push, spec_format_diagnostic, str_views};
use crate::diagnostics::location::Range;
use crate::js_parser::tokenizer::DiagView;
use crate::parser::ast::Parser;
use crate::parser::ast::model::{ASTBlock, ASTHeader};
use crate::parser::ast::grammar::{blocks_view, lemma_blocks_view_len, spec_parse};

pub mod files;

use files::{entries_files, files_view, BlobEntry, BlobSet, CompiledFileData, CompilerFileHost, File, blob_set_items, entries_count, entries_fit, entry_id, level_ids, collect_files};
use vstd::utf8::encode_utf8;

verus! {

/// Identifies a file or a directory of a project.
pub type BlobId = u16;

/// The diagnostics of compiling.
pub struct Diagnostics;

impl Diagnostics {
    pub fn missing_header() -> (d: DiagnosticMessage)
        ensures
            d.message@ == "File must contain just one top-level (#) path."@,
    {
        DiagnosticMessage { code: "", message: "File must contain just one top-level (#) path." }
    }
}

/// What a compiler keeps while it compiles.
pub trait CompilerContext: Sized {
    /// Whether `after` is what seeing `path` makes of this context.
    spec fn path_seen(&self, path: ASTHeader, after: Self) -> bool;

    /// Sees a top-level path before any path is compiled.
    fn process_path(&mut self, path: &ASTHeader)
        ensures
            old(self).path_seen(*path, *final(self)),
    ;
}

/// A target that paths of a story compile to.
pub trait CompilerProvider {
    type Output;
    type Context: CompilerContext;

    /// Whether compiling `file` from the context `before` may give `r` and
    /// leave the context `after`.
    spec fn header_compiled(file: ASTHeader, before: Self::Context, after: Self::Context, r: Result<Self::Output, Vec<Diagnostic>>) -> bool;

    fn compile_header(file: &ASTHeader, ctx: &mut Self::Context, file_id: BlobId) -> (r: Result<Self::Output, Vec<Diagnostic>>)
        ensures
            Self::header_compiled(*file, *old(ctx), *final(ctx), r),
    ;
}

/// Whether compiling the text `text` from the context `before` may give the
/// output `out`, the blocks `blocks` and the diagnostics `diags`, and leave the
/// context `after`: the blocks are those the text parses into; where the first
/// is no top-level (#) path nothing compiles, the context stays, and one more
/// diagnostic says so; otherwise that path is compiled, and its diagnostics, if
/// it fails, follow those of parsing.
pub open spec fn text_compiled<P: CompilerProvider>(
    text: Seq<u8>,
    line_endings: usize,
    before: P::Context,
    after: P::Context,
    out: Option<P::Output>,
    blocks: Seq<ASTBlock>,
    diags: Seq<Diagnostic>,
) -> bool {
    let p = spec_parse(text, line_endings);
    &&& blocks_view(blocks) == p.0
    &&& out.is_some() ==> blocks.len() > 0 && (blocks[0] matches ASTBlock::Header(h) && h.depth == 1)
    &&& !(blocks.len() > 0 && (blocks[0] matches ASTBlock::Header(h) && h.depth == 1)) ==> {
        &&& out.is_none()
        &&& after == before
        &&& diag_views(diags) == p.1.push(
            (Range { start: 0usize, end: text.len() as usize }, spec_format_diagnostic("File must contain just one top-level (#) path."@, Seq::empty()), DiagnosticVariants::Error),
        )
        &&& diags.last().msg@ == "File must contain just one top-level (#) path."@
        &&& diags.last().range == Range { start: 0usize, end: text.len() as usize }
    }
    &&& diag_views(diags).len() >= p.1.len()
    &&& diag_views(diags).take(p.1.len() as int) == p.1
    &&& out.is_some() ==> diag_views(diags) == p.1
    &&& blocks.len() > 0 ==> match blocks[0] {
        ASTBlock::Header(h) => h.depth == 1 ==> exists|res: Result<P::Output, Vec<Diagnostic>>|
            #[trigger] P::header_compiled(h, before, after, res) && match res {
                Ok(o) => out == Some(o),
                Err(e) => out.is_none() && diag_views(diags) == p.1 + diag_views(e@),
            },
        _ => true,
    }
}

/// Whether `files` is what compiling each file's text in turn gives, from
/// the context `before` to `after`, through the contexts `ctxs`, with the
/// blocks `blocks` of each.
pub open spec fn files_compiled<P: CompilerProvider>(
    files: Seq<CompiledFileData<P::Output>>,
    line_endings: usize,
    before: P::Context,
    after: P::Context,
    ctxs: Seq<P::Context>,
    blocks: Seq<Seq<ASTBlock>>,
) -> bool {
    &&& ctxs.len() == files.len() + 1
    &&& blocks.len() == files.len()
    &&& ctxs[0] == before
    &&& ctxs[files.len() as int] == after
    &&& forall|k: int|
        0 <= k < files.len() ==> text_compiled::<P>(
            encode_utf8((#[trigger] files[k]).content@),
            line_endings,
            ctxs[k],
            ctxs[k + 1],
            files[k].compiled_content,
            blocks[k],
            files[k].diagnostics@,
        )
}

/// Compiles the files of a project with a provider.
pub struct Compiler<P: CompilerProvider> {
    pub host: CompilerFileHost,
    pub ctx: P::Context,
}

impl<P: CompilerProvider> Compiler<P> {
    /// A compiler for the project in the directory `cwd`, with no files yet.
    pub fn new(cwd: &str, line_endings: usize, ctx: P::Context) -> (c: Self)
        ensures
            c.host.wf(),
            c.host.cwd@ == cwd@,
            c.host.line_endings == line_endings,
            c.host.counter == 1,
            c.host.files@.len() == 0,
            c.host.dirs@.len() == 0,
            c.ctx == ctx,
    {
        Compiler { host: CompilerFileHost::new(cwd, line_endings), ctx }
    }

    /// Forgets every blob, then loads and compiles the project anew.
    pub fn reset(&mut self, entries: &Vec<BlobEntry>) -> (r: (BlobSet, Vec<CompiledFileData<P::Output>>))
        requires
            old(self).host.line_endings >= 1,
            1 + entries_count(entries@) <= u16::MAX,
            entries_fit(entries@, old(self).host.line_endings as int),
        ensures
            final(self).host.wf(),
            final(self).host.counter == 1 + entries_count(entries@),
            final(self).host.cwd == old(self).host.cwd,
            final(self).host.line_endings == old(self).host.line_endings,
            blob_set_items(r.0) == level_ids(1, entries@),
            forall|x: BlobId| #[trigger] final(self).host.has_blob(x) ==> 1 <= x < final(self).host.counter,
            forall|i: int|
                0 <= i < entries.len() ==> final(self).host.holds_entry(
                    entry_id(1, entries@, i) as BlobId,
                    #[trigger] entries@[i],
                    None,
                ),
            forall|k: int| 0 <= k < r.1@.len() ==> 1 <= (#[trigger] r.1@[k]).id < final(self).host.counter,
            r.1@.len() == entries_files(entries@, 1).len(),
            forall|k: int|
                0 <= k < r.1@.len() ==> ((#[trigger] r.1@[k]).id as int, r.1@[k].content@) == entries_files(entries@, 1)[k],
            exists|ctxs: Seq<P::Context>, blocks: Seq<Seq<ASTBlock>>|
                #[trigger] files_compiled::<P>(r.1@, old(self).host.line_endings, old(self).ctx, final(self).ctx, ctxs, blocks),
            forall|k: int|
                0 <= k < r.1@.len() && final(self).host.has_file((#[trigger] r.1@[k]).id) ==> blocks_view(
                    final(self).host.file(r.1@[k].id).parsed_content@,
                ) == spec_parse(encode_utf8(r.1@[k].content@), old(self).host.line_endings).0,
    {
        self.host.counter = 1;
        self.host.files.clear();
        self.host.dirs.clear();
        proof {
            reveal(CompilerFileHost::wf);
        }
        let ghost before = self.host;
        let r = self.init_fs(entries);
        proof {
            reveal(CompilerFileHost::extends);
            assert forall|x: BlobId| #[trigger] self.host.has_blob(x) implies 1 <= x < self.host.counter by {
                assert(!before.has_file(x));
                assert(!before.has_dir(x));
                assert(self.host.has_blob(x) && !before.has_blob(x));
            }
        }
        r
    }

    /// Loads the entries of the root directory and compiles each file, in
    /// the order they are loaded. Hands back the ids of the root's entries
    /// and what compiling each file gave.
    pub fn init_fs(&mut self, entries: &Vec<BlobEntry>) -> (r: (BlobSet, Vec<CompiledFileData<P::Output>>))
        requires
            old(self).host.wf(),
            old(self).host.line_endings >= 1,
            old(self).host.counter + entries_count(entries@) <= u16::MAX,
            entries_fit(entries@, old(self).host.line_endings as int),
        ensures
            final(self).host.wf(),
            final(self).host.counter == old(self).host.counter + entries_count(entries@),
            blob_set_items(r.0) == level_ids(old(self).host.counter as int, entries@),
            old(self).host.extends(final(self).host, None, level_ids(old(self).host.counter as int, entries@)),
            forall|i: int|
                0 <= i < entries.len() ==> final(self).host.holds_entry(
                    entry_id(old(self).host.counter as int, entries@, i) as BlobId,
                    #[trigger] entries@[i],
                    None,
                ),
            forall|k: int|
                0 <= k < r.1@.len() ==> old(self).host.counter <= (#[trigger] r.1@[k]).id
                    < final(self).host.counter,
            r.1@.len() == entries_files(entries@, old(self).host.counter as int).len(),
            forall|k: int|
                0 <= k < r.1@.len() ==> ((#[trigger] r.1@[k]).id as int, r.1@[k].content@) == entries_files(
                    entries@,
                    old(self).host.counter as int,
                )[k],
            exists|ctxs: Seq<P::Context>, blocks: Seq<Seq<ASTBlock>>|
                #[trigger] files_compiled::<P>(r.1@, old(self).host.line_endings, old(self).ctx, final(self).ctx, ctxs, blocks),
            forall|k: int|
                0 <= k < r.1@.len() && final(self).host.has_file((#[trigger] r.1@[k]).id) ==> blocks_view(
                    final(self).host.file(r.1@[k].id).parsed_content@,
                ) == spec_parse(encode_utf8(r.1@[k].content@), old(self).host.line_endings).0,
    {
        let line_endings = self.host.line_endings;
        let start = self.host.counter;
        let ghost first = self.host;
        proof {
            first.lemma_wf_ids();
        }
        let global = self.host.load_cwd(entries);
        let ghost loaded = self.host;
        proof {
            reveal(CompilerFileHost::extends);
        }
        let mut files: Vec<(BlobId, String)> = Vec::new();
        let _ = collect_files(entries, start, line_endings, &mut files);
        let mut parsed_files: Vec<CompiledFileData<P::Output>> = Vec::new();
        let ghost ctx0 = self.ctx;
        let ghost mut ctxs: Seq<P::Context> = seq![self.ctx];
        let ghost mut bls: Seq<Seq<ASTBlock>> = seq![];
        proof {
            assert(files_view(files@) =~= Seq::empty() + entries_files(entries@, start as int));
        }
        let mut k: usize = 0;
        while k < files.len()
            invariant
                self.host.wf(),
                loaded.wf(),
                first.ids_fresh(),
                start == first.counter,
                loaded.same_tree(self.host),
                first.extends(self.host, None, level_ids(start as int, entries@)),
                forall|i: int|
                    0 <= i < entries.len() ==> self.host.holds_entry(
                        entry_id(start as int, entries@, i) as BlobId,
                        #[trigger] entries@[i],
                        None,
                    ),
                line_endings == self.host.line_endings,
                line_endings >= 1,
                k <= files.len(),
                forall|j: int|
                    0 <= j < files@.len() ==> start <= (#[trigger] files@[j]).0 < self.host.counter
                        && encode_utf8(files@[j].1@).len() + 2 * line_endings + 16 <= usize::MAX,
                forall|j: int| 0 <= j < parsed_files@.len() ==> start <= (#[trigger] parsed_files@[j]).id < self.host.counter,
                files_view(files@) == entries_files(entries@, start as int),
                forall|a: int, b: int| 0 <= a < b < files@.len() ==> (#[trigger] files@[a]).0 < (#[trigger] files@[b]).0,
                parsed_files@.len() == k,
                forall|j: int| 0 <= j < k ==> (#[trigger] parsed_files@[j]).id == files@[j].0 && parsed_files@[j].content@ == files@[j].1@,
                files_compiled::<P>(parsed_files@, line_endings, ctx0, self.ctx, ctxs, bls),
                forall|j: int|
                    0 <= j < k && self.host.has_file((#[trigger] parsed_files@[j]).id) ==> blocks_view(
                        self.host.file(parsed_files@[j].id).parsed_content@,
                    ) == spec_parse(encode_utf8(parsed_files@[j].content@), line_endings).0,
            decreases files.len() - k,
        {
            let id = files[k].0;
            let content = files[k].1.clone();
            let ghost ctx_before = self.ctx;
            let (compiled_content, parsed_content, diagnostics) = Self::compile_string(
                &mut self.ctx,
                line_endings,
                content.as_str(),
                id,
            );
            let ghost prev = self.host;
            let ghost pc = parsed_content@;
            self.host.set_parsed_content(id, parsed_content);
            proof {
                prev.lemma_same_tree(self.host);
                assert(files_view(files@)[k as int] == (files@[k as int].0 as int, files@[k as int].1@));
                assert forall|j: int|
                    0 <= j < k && self.host.has_file((#[trigger] parsed_files@[j]).id) implies blocks_view(
                        self.host.file(parsed_files@[j].id).parsed_content@,
                    ) == spec_parse(encode_utf8(parsed_files@[j].content@), line_endings).0 by {
                    assert(files@[j].0 < files@[k as int].0);
                }
                loaded.lemma_same_tree(prev);
                assert(loaded.same_tree(self.host));
                assert(!first.has_file(id)) by {
                    if first.has_file(id) {
                        assert(first.files@[first.file_index(id)].id < first.counter);
                    }
                }
                CompilerFileHost::lemma_parsed_extends(first, prev, self.host, None, level_ids(start as int, entries@), id);
                assert forall|i: int| 0 <= i < entries.len() implies self.host.holds_entry(
                    entry_id(start as int, entries@, i) as BlobId,
                    #[trigger] entries@[i],
                    None,
                ) by {
                    CompilerFileHost::lemma_parsed_holds(prev, self.host, id, entry_id(start as int, entries@, i) as BlobId, entries@[i], None);
                }
            }
            let ghost gdata = CompiledFileData { id, compiled_content, diagnostics, content };
            let ghost old_parsed = parsed_files@;
            parsed_files.push(CompiledFileData { id, compiled_content, diagnostics, content });
            proof {
                ctxs = ctxs.push(self.ctx);
                bls = bls.push(pc);
                assert(parsed_files@ == old_parsed.push(gdata));
                assert forall|j: int| 0 <= j < parsed_files@.len() implies text_compiled::<P>(
                    encode_utf8((#[trigger] parsed_files@[j]).content@),
                    line_endings,
                    ctxs[j],
                    ctxs[j + 1],
                    parsed_files@[j].compiled_content,
                    bls[j],
                    parsed_files@[j].diagnostics@,
                ) by {
                    if j < k {
                        assert(parsed_files@[j] == old_parsed[j]);
                    }
                }
            }
            k = k + 1;
        }
        proof {
            loaded.lemma_same_tree(self.host);
            assert(files_compiled::<P>(parsed_files@, line_endings, ctx0, self.ctx, ctxs, bls));
            assert forall|j: int| 0 <= j < parsed_files@.len() implies ((#[trigger] parsed_files@[j]).id as int, parsed_files@[j].content@)
                == entries_files(entries@, start as int)[j] by {
                assert(files_view(files@)[j] == (files@[j].0 as int, files@[j].1@));
            }
        }
        (global, parsed_files)
    }

    /// Compiles the file `file_id`, whose text is `file_contents`, and keeps
    /// its blocks. Hands back what compiled, the text and the diagnostics.
    pub fn compile_file(&mut self, file_id: BlobId, file_contents: String) -> (r: (
        Option<P::Output>,
        String,
        Vec<Diagnostic>,
    ))
        requires
            old(self).host.wf(),
            old(self).host.has_file(file_id),
            old(self).host.line_endings >= 1,
            encode_utf8(file_contents@).len() + 2 * old(self).host.line_endings + 16 <= usize::MAX,
        ensures
            final(self).host.wf(),
            old(self).host.same_tree(final(self).host),
            r.1@ == file_contents@,
            final(self).host.line_endings == old(self).host.line_endings,
            forall|x: BlobId|
                old(self).host.has_file(x) && x != file_id ==> #[trigger] final(self).host.file(x) == old(
                    self,
                ).host.file(x),
            ({
                let f = final(self).host.file(file_id);
                &&& f == (File { parsed_content: f.parsed_content, ..old(self).host.file(file_id) })
                &&& text_compiled::<P>(
                    encode_utf8(file_contents@),
                    old(self).host.line_endings,
                    old(self).ctx,
                    final(self).ctx,
                    r.0,
                    f.parsed_content@,
                    r.2@,
                )
            }),
    {
        let (output, diagnostics) = self.compile_file_with_content(file_id, file_contents.as_str());
        (output, file_contents, diagnostics)
    }

    /// Compiles the text `content` of the file `file_id` and keeps its
    /// blocks. Hands back what compiled and the diagnostics.
    pub fn compile_file_with_content(&mut self, file_id: BlobId, content: &str) -> (r: (
        Option<P::Output>,
        Vec<Diagnostic>,
    ))
        requires
            old(self).host.wf(),
            old(self).host.has_file(file_id),
            old(self).host.line_endings >= 1,
            encode_utf8(content@).len() + 2 * old(self).host.line_endings + 16 <= usize::MAX,
        ensures
            final(self).host.wf(),
            old(self).host.same_tree(final(self).host),
            final(self).host.line_endings == old(self).host.line_endings,
            forall|x: BlobId|
                old(self).host.has_file(x) && x != file_id ==> #[trigger] final(self).host.file(x) == old(
                    self,
                ).host.file(x),
            ({
                let f = final(self).host.file(file_id);
                &&& f == (File { parsed_content: f.parsed_content, ..old(self).host.file(file_id) })
                &&& text_compiled::<P>(
                    content.spec_bytes(),
                    old(self).host.line_endings,
                    old(self).ctx,
                    final(self).ctx,
                    r.0,
                    f.parsed_content@,
                    r.1@,
                )
            }),
    {
        let (compiled, parsed, diagnostics) = Self::compile_string(
            &mut self.ctx,
            self.host.line_endings,
            content,
            file_id,
        );
        self.host.set_parsed_content(file_id, parsed);
        (compiled, diagnostics)
    }

    /// Parses the text of a file and compiles it; the file must start with
    /// one top-level (#) path, which is then compiled. Gives the compiled path
    /// if there is one, the blocks, and the diagnostics.
    pub fn compile_string(ctx: &mut P::Context, line_endings: usize, text: &str, file_id: BlobId) -> (r: (
        Option<P::Output>,
        Vec<ASTBlock>,
        Vec<Diagnostic>,
    ))
        requires
            line_endings >= 1,
            text.spec_bytes().len() + 2 * line_endings + 16 <= usize::MAX,
        ensures
            text_compiled::<P>(text.spec_bytes(), line_endings, *old(ctx), *final(ctx), r.0, r.1@, r.2@),
    {
        let (parsed_content, mut dias) = Parser::parse_str(text, line_endings);
        let ghost pd = diag_views(dias@);
        let is_top = parsed_content.len() > 0 && match &parsed_content[0] {
            ASTBlock::Header(header) => header.depth == 1,
            _ => false,
        };
        if is_top {
            let compiled = match &parsed_content[0] {
                ASTBlock::Header(header) => P::compile_header(header, ctx, file_id),
                _ => Err(Vec::new()),
            };
            let ghost res = compiled;
            match compiled {
                Ok(compiled) => {
                    assert(diag_views(dias@).take(diag_views(dias@).len() as int) =~= diag_views(dias@));
                    (Some(compiled), parsed_content, dias)
                },
                Err(mut error) => {
                    let ghost before = dias@;
                    let ghost err = error@;
                    dias.append(&mut error);
                    proof {
                        assert(dias@.take(before.len() as int) =~= before);
                        assert(diag_views(dias@).take(before.len() as int) =~= diag_views(before));
                        assert(diag_views(dias@) =~= diag_views(before) + diag_views(err));
                    }
                    (None, parsed_content, dias)
                },
            }
        } else {
            let args: Vec<&str> = Vec::new();
            assert(str_views(args@) =~= Seq::<Seq<char>>::empty());
            let d = Diagnostic::error(&Diagnostics::missing_header(), Range::new(0, text.as_bytes().len()), args);
            let ghost before = dias@;
            dias.push(d);
            proof {
                lemma_diag_views_push(before, d);
                assert(diag_views(dias@).take(before.len() as int) =~= diag_views(before));
            }
            (None, parsed_content, dias)
        }
    }
}

/// The headers among the blocks, in order.
pub open spec fn headers_of(blocks: Seq<ASTBlock>) -> Seq<ASTHeader>
    decreases blocks.len(),
{
    if blocks.len() == 0 {
        seq![]
    } else {
        let rest = headers_of(blocks.drop_last());
        match blocks.last() {
            ASTBlock::Header(h) => rest.push(h),
            _ => rest,
        }
    }
}

proof fn lemma_seen_step<C: CompilerContext>(before: C, hs: Seq<ASTHeader>, mid: C, h: ASTHeader, after: C)
    requires
        all_seen(before, hs, mid),
        mid.path_seen(h, after),
    ensures
        all_seen(before, hs.push(h), after),
{
    assert(hs.push(h).drop_last() =~= hs);
    assert(all_seen(before, hs.push(h).drop_last(), mid));
    assert(mid.path_seen(hs.push(h).last(), after));
    assert(exists|m: C| #[trigger] all_seen(before, hs.push(h).drop_last(), m) && m.path_seen(hs.push(h).last(), after));
}

proof fn lemma_compiled_step<P: CompilerProvider>(
    before: P::Context,
    hs: Seq<ASTHeader>,
    mid: P::Context,
    outs0: Seq<P::Output>,
    errs0: Seq<DiagView>,
    h: ASTHeader,
    after: P::Context,
    res: Result<P::Output, Vec<Diagnostic>>,
    outs: Seq<P::Output>,
    errs: Seq<DiagView>,
)
    requires
        all_compiled::<P>(before, hs, mid, outs0, errs0),
        P::header_compiled(h, mid, after, res),
        match res {
            Ok(o) => outs == outs0.push(o) && errs == errs0,
            Err(e) => outs == outs0 && errs == errs0 + diag_views(e@),
        },
    ensures
        all_compiled::<P>(before, hs.push(h), after, outs, errs),
{
    assert(hs.push(h).drop_last() =~= hs);
    assert(hs.push(h).last() == h);
    match res {
        Ok(o) => {
            assert(outs.drop_last() =~= outs0);
        },
        Err(e) => {
            let k = errs.len() - diag_views(e@).len();
            assert(errs.skip(k) =~= diag_views(e@));
            assert(errs.take(k) =~= errs0);
        },
    }
    assert(P::header_compiled(hs.push(h).last(), mid, after, res));
}

proof fn lemma_headers_len(blocks: Seq<ASTBlock>)
    ensures
        headers_of(blocks).len() <= blocks.len(),
    decreases blocks.len(),
{
    if blocks.len() > 0 {
        lemma_headers_len(blocks.drop_last());
    }
}

/// Whether `after` is what seeing the paths `hs`, one after the other, makes
/// of the context `before`.
pub open spec fn all_seen<C: CompilerContext>(before: C, hs: Seq<ASTHeader>, after: C) -> bool
    decreases hs.len(),
{
    if hs.len() == 0 {
        after == before
    } else {
        exists|mid: C| all_seen(before, hs.drop_last(), mid) && #[trigger] mid.path_seen(hs.last(), after)
    }
}

/// Whether compiling the paths `hs` one after the other from the context
/// `before` may leave the context `after`, with the outputs `outs` of those
/// that compiled and the diagnostics `errs` of those that failed.
pub open spec fn all_compiled<P: CompilerProvider>(
    before: P::Context,
    hs: Seq<ASTHeader>,
    after: P::Context,
    outs: Seq<P::Output>,
    errs: Seq<DiagView>,
) -> bool
    decreases hs.len(),
{
    if hs.len() == 0 {
        after == before && outs.len() == 0 && errs.len() == 0
    } else {
        exists|mid: P::Context, res: Result<P::Output, Vec<Diagnostic>>|
            #[trigger] P::header_compiled(hs.last(), mid, after, res) && match res {
                Ok(o) => outs.len() > 0 && outs.last() == o && all_compiled::<P>(before, hs.drop_last(), mid, outs.drop_last(), errs),
                Err(e) => {
                    let k = errs.len() - diag_views(e@).len();
                    k >= 0 && errs.skip(k) == diag_views(e@) && all_compiled::<P>(before, hs.drop_last(), mid, outs, errs.take(k))
                },
            }
    }
}

/// Compiles every top-level path of a text; the context sees each of them
/// first. Gives what compiled, all diagnostics, and the context.
pub fn compile_str<P: CompilerProvider>(string: &str, ctx: P::Context, line_endings: usize) -> (r: (
    Vec<P::Output>,
    Vec<Diagnostic>,
    P::Context,
))
    requires
        line_endings >= 1,
        string.spec_bytes().len() + 2 * line_endings + 16 <= usize::MAX,
    ensures
        r.0@.len() <= spec_parse(string.spec_bytes(), line_endings).0.len(),
        exists|blocks: Seq<ASTBlock>, mid: P::Context|
            #![trigger blocks_view(blocks), all_seen(ctx, headers_of(blocks), mid)]
            blocks_view(blocks) == spec_parse(string.spec_bytes(), line_endings).0 && all_seen(ctx, headers_of(blocks), mid)
                && all_compiled::<P>(mid, headers_of(blocks), r.2, r.0@, diag_views(r.1@).skip(spec_parse(string.spec_bytes(), line_endings).1.len() as int)),
        diag_views(r.1@).len() >= spec_parse(string.spec_bytes(), line_endings).1.len(),
        diag_views(r.1@).take(spec_parse(string.spec_bytes(), line_endings).1.len() as int) == spec_parse(
            string.spec_bytes(),
            line_endings,
        ).1,
{
    let ghost ctx0 = ctx;
    let mut ctx = ctx;
    let (mut parsed, mut total_errors) = Parser::parse_str(string, line_endings);
    let ghost n = parsed@.len();
    let ghost all = parsed@;
    proof {
        lemma_blocks_view_len(parsed@);
        assert(all.take(0) =~= Seq::<ASTBlock>::empty());
        assert(all.subrange(0, n as int) =~= all);
    }
    let ghost pd = total_errors@;
    let mut result: Vec<P::Output> = Vec::new();
    let mut headers: Vec<ASTHeader> = Vec::new();
    while parsed.len() > 0
        invariant
            headers@.len() + parsed@.len() <= n,
            n == all.len(),
            parsed@ == all.subrange(n - parsed@.len(), n as int),
            headers@ == headers_of(all.take(n - parsed@.len())),
            all_seen(ctx0, headers@, ctx),
        decreases parsed@.len(),
    {
        let ghost k = n - parsed@.len();
        let ghost hs = headers@;
        let ghost prev = ctx;
        let thing = parsed.remove(0);
        proof {
            assert(thing == all[k]);
            assert(all.take(k + 1).drop_last() =~= all.take(k));
            assert(parsed@ =~= all.subrange(k + 1, n as int));
            lemma_headers_len(all.take(k));
        }
        if let ASTBlock::Header(header) = thing {
            ctx.process_path(&header);
            headers.push(header);
            proof {
                assert(headers@ =~= hs.push(headers@.last()));
                lemma_seen_step(ctx0, hs, prev, headers@.last(), ctx);
            }
        }
    }
    proof {
        assert(all.take(n as int) =~= all);
    }
    let ghost mid = ctx;
    let mut i: usize = 0;
    proof {
        assert(headers@.take(0) =~= Seq::<ASTHeader>::empty());
        assert(diag_views(total_errors@).skip(pd.len() as int) =~= Seq::<DiagView>::empty());
    }
    while i < headers.len()
        invariant
            i <= headers@.len(),
            headers@.len() <= n,
            result@.len() <= i,
            total_errors@.len() >= pd.len(),
            total_errors@.take(pd.len() as int) == pd,
            all_compiled::<P>(mid, headers@.take(i as int), ctx, result@, diag_views(total_errors@).skip(pd.len() as int)),
        decreases headers@.len() - i,
    {
        let ghost prev = ctx;
        let ghost outs0 = result@;
        let ghost errs0 = diag_views(total_errors@).skip(pd.len() as int);
        let res = P::compile_header(&headers[i], &mut ctx, 0);
        let ghost gres = res;
        match res {
            Ok(compiled) => result.push(compiled),
            Err(mut err) => {
                let ghost before = total_errors@;
                let ghost e = err@;
                total_errors.append(&mut err);
                assert(total_errors@.take(pd.len() as int) =~= before.take(pd.len() as int));
                proof {
                    assert(total_errors@ =~= before + e);
                    assert(diag_views(total_errors@) =~= diag_views(before) + diag_views(e));
                    assert(diag_views(total_errors@).skip(pd.len() as int) =~= errs0 + diag_views(e));
                }
            },
        }
        proof {
            assert(headers@.take(i + 1).drop_last() =~= headers@.take(i as int));
            assert(headers@.take(i + 1).last() == headers@[i as int]);
            assert(headers@.take(i + 1) =~= headers@.take(i as int).push(headers@[i as int]));
            lemma_compiled_step::<P>(mid, headers@.take(i as int), prev, outs0, errs0, headers@[i as int], ctx, gres, result@, diag_views(total_errors@).skip(pd.len() as int));
        }
        i = i + 1;
    }
    proof {
        assert(headers@.take(headers@.len() as int) =~= headers@);
        assert(all_seen(ctx0, headers_of(all), mid));
    }
    proof {
        assert(diag_views(total_errors@).take(pd.len() as int) =~= diag_views(pd));
    }
    (result, total_errors, ctx)
}

} // verus!
