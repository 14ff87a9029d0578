//! The repository graph: files, the symbols found in them, and the edges that tie a
//! repository to its files and a file to its symbols.
use vstd::prelude::*;
use crate::ids::{
    get_id, lemma_ids_distinct, lemma_nth_id_compose, nth_id, EdgeId, FileId, IdGenerator, RepoId,
    SymbolId,
};
use crate::paths::{
    components, has_rs_extension, join_paths, lemma_strip_then_join, path_parent,
    path_strip_prefix, spec_join, spec_parent, spec_path_extension, spec_starts_with,
    spec_strip_prefix,
};
use crate::extraction::{
    check_positions, function_symbols, import_symbols, lemma_function_symbols_named,
    lemma_import_symbols_named, lemma_struct_symbols_named, positions_bounded,
    rs_extract_functions, rs_extract_imports, rs_extract_structs, struct_symbols, well_named,
};
use crate::naming::{module_path_for_file, spec_canonical_module_path, spec_module_path_for_file};
use crate::syntax::{nodes_of_kind, rust_syntax, RustParser, SyntaxNode};
use crate::text::{chars_of, copy_opt_string, copy_strings, opt_str, same_str, string_of, strs};

verus! {

/// The language of a source file.
#[derive(Debug, Clone, Copy, PartialEq, Eq, PartialOrd, Ord, Structural)]
pub enum LanguageKind {
    Rust,
}

/// A source file of a repository, its path relative to the repository root.
#[derive(Debug, PartialEq, Eq)]
pub struct FileNode {
    pub id: FileId,
    pub path: String,
    pub language: LanguageKind,
}

/// What a function symbol records: the text of each parameter, when the function has a
/// parameter list.
#[derive(Debug, PartialEq, Eq)]
pub struct FunctionInfo {
    pub args: Option<Vec<String>>,
}

/// What a struct symbol records: its field names, or the field types of a tuple struct.
#[derive(Debug, PartialEq, Eq)]
pub struct StructInfo {
    pub members: Vec<String>,
}

/// What an import symbol records.
#[derive(Debug, PartialEq, Eq)]
pub struct ImportInfo {
    /// The imported path as written, with the prefixes of enclosing lists put in front.
    pub import_path: String,
    /// The name given with `as`, if any.
    pub alias: Option<String>,
    /// Whether the import ends in `*`.
    pub is_glob: bool,
    /// The absolute path the import refers to, once resolved.
    pub resolved_path: Option<String>,
}

/// The kind-specific part of a symbol.
#[derive(Debug, PartialEq, Eq)]
pub enum SymbolInfo {
    Function(FunctionInfo),
    Struct(StructInfo),
    Import(ImportInfo),
}

/// Where a symbol stands in its file: lines and columns counted from 1.
#[derive(Debug, Clone, Copy, PartialEq, Eq, Structural)]
pub struct Span {
    pub start_line: usize,
    pub start_col: usize,
    pub end_line: usize,
    pub end_col: usize,
}

/// A symbol found in a source file.
#[derive(Debug, PartialEq, Eq)]
pub struct SymbolNode {
    pub id: SymbolId,
    pub file: FileId,
    pub name: String,
    pub qualified_name: String,
    /// The module the symbol is declared in.
    pub module: Option<String>,
    pub info: SymbolInfo,
    pub span: Span,
}

/// One end of an edge.
#[derive(Debug, Clone, Copy, PartialEq, Eq, Structural)]
pub enum NodeRef {
    Repo(RepoId),
    File(FileId),
    Symbol(SymbolId),
}

/// The relation an edge stands for.
#[derive(Debug, Clone, Copy, PartialEq, Eq, Structural)]
pub enum EdgeKind {
    Contain,
    Define,
    Import,
    Call,
    Reference,
    Implement,
}

/// An edge of the graph.
#[derive(Debug, Clone, Copy, PartialEq, Eq, Structural)]
pub struct Edge {
    pub id: EdgeId,
    pub kind: EdgeKind,
    pub from: NodeRef,
    pub to: NodeRef,
}

/// A repository: where it lies, its files, the symbols found in them and the edges that
/// connect them.
#[derive(Debug)]
pub struct Repo {
    pub id: RepoId,
    pub name: String,
    pub root_path: String,
    pub files: Vec<FileNode>,
    pub symbols: Vec<SymbolNode>,
    pub edges: Vec<Edge>,
}

/// The abstract value of an `ImportInfo`.
pub struct ImportView {
    pub import_path: Seq<char>,
    pub alias: Option<Seq<char>>,
    pub is_glob: bool,
    pub resolved_path: Option<Seq<char>>,
}

/// The abstract value of a `SymbolInfo`.
pub enum InfoView {
    Function(Option<Seq<Seq<char>>>),
    Struct(Seq<Seq<char>>),
    Import(ImportView),
}

/// The abstract value of a `SymbolNode`.
pub struct SymbolView {
    pub id: SymbolId,
    pub file: FileId,
    pub name: Seq<char>,
    pub qualified_name: Seq<char>,
    pub module: Option<Seq<char>>,
    pub info: InfoView,
    pub span: Span,
}

impl View for ImportInfo {
    type V = ImportView;

    open spec fn view(&self) -> ImportView {
        ImportView {
            import_path: self.import_path@,
            alias: opt_str(self.alias),
            is_glob: self.is_glob,
            resolved_path: opt_str(self.resolved_path),
        }
    }
}

/// The abstract value of an optional list of strings.
pub open spec fn opt_strs(o: Option<Vec<String>>) -> Option<Seq<Seq<char>>> {
    match o {
        Some(v) => Some(strs(v@)),
        None => None,
    }
}

impl View for SymbolInfo {
    type V = InfoView;

    open spec fn view(&self) -> InfoView {
        match self {
            SymbolInfo::Function(f) => InfoView::Function(opt_strs(f.args)),
            SymbolInfo::Struct(s) => InfoView::Struct(strs(s.members@)),
            SymbolInfo::Import(i) => InfoView::Import(i@),
        }
    }
}

impl View for SymbolNode {
    type V = SymbolView;

    open spec fn view(&self) -> SymbolView {
        SymbolView {
            id: self.id,
            file: self.file,
            name: self.name@,
            qualified_name: self.qualified_name@,
            module: opt_str(self.module),
            info: self.info@,
            span: self.span,
        }
    }
}

/// The abstract values of a list of symbols.
pub open spec fn symbol_views(v: Seq<SymbolNode>) -> Seq<SymbolView> {
    v.map_values(|s: SymbolNode| s@)
}

impl ImportInfo {
    /// A copy of the import.
    pub fn duplicate(&self) -> (r: ImportInfo)
        ensures
            r@ == self@,
    {
        ImportInfo {
            import_path: self.import_path.clone(),
            alias: copy_opt_string(&self.alias),
            is_glob: self.is_glob,
            resolved_path: copy_opt_string(&self.resolved_path),
        }
    }
}

impl SymbolInfo {
    /// A copy of the symbol information.
    pub fn duplicate(&self) -> (r: SymbolInfo)
        ensures
            r@ == self@,
    {
        match self {
            SymbolInfo::Function(f) => {
                let args = match &f.args {
                    Some(a) => Some(copy_strings(a)),
                    None => None,
                };
                SymbolInfo::Function(FunctionInfo { args })
            },
            SymbolInfo::Struct(s) => SymbolInfo::Struct(StructInfo { members: copy_strings(&s.members) }),
            SymbolInfo::Import(i) => SymbolInfo::Import(i.duplicate()),
        }
    }
}

impl SymbolNode {
    /// A copy of the symbol.
    pub fn duplicate(&self) -> (r: SymbolNode)
        ensures
            r@ == self@,
    {
        SymbolNode {
            id: self.id,
            file: self.file,
            name: self.name.clone(),
            qualified_name: self.qualified_name.clone(),
            module: copy_opt_string(&self.module),
            info: self.info.duplicate(),
            span: self.span,
        }
    }
}

/// The directory that relative file paths of a repository are taken from: the repository
/// path itself, or its parent when the repository is a single file.
pub open spec fn spec_repo_root(path: Seq<char>, is_file: bool) -> Seq<char> {
    if is_file {
        match spec_parent(path) {
            Some(p) => p,
            None => path,
        }
    } else {
        path
    }
}

/// The path starts at the root of the file system.
pub open spec fn is_absolute(path: Seq<char>) -> bool {
    path.len() > 0 && path[0] == '/'
}

/// Where a file path of a repository points: an absolute path as it is, a relative one
/// under the repository root.
pub open spec fn spec_resolve_file_path(root_path: Seq<char>, root_is_file: bool, file: Seq<char>) -> Seq<char> {
    if is_absolute(file) {
        file
    } else {
        spec_join(spec_repo_root(root_path, root_is_file), file)
    }
}

/// The edge that makes the repository contain a file.
pub open spec fn repo_file_edge(id: u64, repo: RepoId, file: FileId) -> Edge {
    Edge { id: EdgeId(id), kind: EdgeKind::Contain, from: NodeRef::Repo(repo), to: NodeRef::File(file) }
}

/// The edge that makes a file contain a symbol.
pub open spec fn file_symbol_edge(id: u64, file: FileId, symbol: SymbolId) -> Edge {
    Edge {
        id: EdgeId(id),
        kind: EdgeKind::Contain,
        from: NodeRef::File(file),
        to: NodeRef::Symbol(symbol),
    }
}

/// The edges of a repository: one from the repository to each file, then one from each
/// symbol's file to the symbol, numbered from `first` on.
pub open spec fn spec_build_edges(
    repo: RepoId,
    files: Seq<FileNode>,
    symbols: Seq<SymbolNode>,
    first: u64,
) -> Seq<Edge> {
    Seq::new(
        files.len() + symbols.len(),
        |k: int|
            if k < files.len() {
                repo_file_edge(nth_id(first, k), repo, files[k].id)
            } else {
                file_symbol_edge(
                    nth_id(first, k),
                    symbols[k - files.len()].file,
                    symbols[k - files.len()].id,
                )
            },
    )
}

/// The file that the first edge containing the symbol starts from, looking from edge `i` on.
pub open spec fn symbol_file_from(edges: Seq<Edge>, symbol: SymbolId, i: int) -> Option<FileId>
    decreases edges.len() - i,
{
    if i < 0 || i >= edges.len() {
        None
    } else if edges[i].kind == EdgeKind::Contain && edges[i].from is File && edges[i].to
        == NodeRef::Symbol(symbol) {
        Some(edges[i].from->File_0)
    } else {
        symbol_file_from(edges, symbol, i + 1)
    }
}

/// Some edge makes the repository contain the file.
pub open spec fn spec_is_repo_file(edges: Seq<Edge>, repo: RepoId, file: FileId) -> bool {
    exists|i: int|
        0 <= i < edges.len() && edges[i].kind == EdgeKind::Contain && #[trigger] edges[i].from
            == NodeRef::Repo(repo) && edges[i].to == NodeRef::File(file)
}

/// The position of the first file with the identifier, looking from position `i` on.
pub open spec fn file_index_from(files: Seq<FileNode>, file: FileId, i: int) -> Option<int>
    decreases files.len() - i,
{
    if i < 0 || i >= files.len() {
        None
    } else if files[i].id == file {
        Some(i)
    } else {
        file_index_from(files, file, i + 1)
    }
}

/// The position of the file that holds the symbol: the file that the edges tie the symbol
/// to, provided the edges also tie that file to the repository.
pub open spec fn spec_symbol_file(repo: Repo, symbol: SymbolId) -> Option<int> {
    match symbol_file_from(repo.edges@, symbol, 0) {
        Some(f) => if spec_is_repo_file(repo.edges@, repo.id, f) {
            file_index_from(repo.files@, f, 0)
        } else {
            None
        },
        None => None,
    }
}

/// The path of the file that holds the symbol.
pub open spec fn spec_symbol_file_path(repo: Repo, symbol: SymbolId, root_is_file: bool) -> Option<Seq<char>> {
    match spec_symbol_file(repo, symbol) {
        Some(i) => Some(spec_resolve_file_path(repo.root_path@, root_is_file, repo.files@[i].path@)),
        None => None,
    }
}

/// The symbol is called `query`, by its name or by its qualified name.
pub open spec fn matches_query(symbol: SymbolNode, query: Seq<char>) -> bool {
    symbol.name@ == query || symbol.qualified_name@ == query
}

/// The symbols among `symbols` that match the query and whose file the repository knows.
pub open spec fn found_symbols(repo: Repo, symbols: Seq<SymbolNode>, query: Seq<char>) -> Seq<SymbolView>
    decreases symbols.len(),
{
    if symbols.len() == 0 {
        Seq::empty()
    } else {
        let before = found_symbols(repo, symbols.drop_last(), query);
        let s = symbols.last();
        if matches_query(s, query) && spec_symbol_file(repo, s.id) is Some {
            before.push(s@)
        } else {
            before
        }
    }
}

/// The relative paths of walked files: each with the repository root taken off the front,
/// or unchanged where the root does not begin it.
pub open spec fn spec_relativize_files(base: Seq<char>, base_is_file: bool, files: Seq<Seq<char>>) -> Seq<Seq<char>> {
    let root = spec_repo_root(base, base_is_file);
    files.map_values(
        |f: Seq<char>|
            match spec_strip_prefix(f, root) {
                Some(r) => r,
                None => f,
            },
    )
}

/// The symbols of one parsed source file: its imports, then its functions, then its
/// structs, numbered from `first` on.
pub open spec fn file_symbols(nodes: Seq<SyntaxNode>, file: FileId, file_module: Seq<char>, first: u64) -> Seq<SymbolView> {
    let imports = import_symbols(
        nodes,
        nodes_of_kind(nodes, "use_declaration"@),
        file,
        file_module,
        first,
    );
    let functions = function_symbols(
        nodes,
        nodes_of_kind(nodes, "function_item"@),
        file,
        file_module,
        nth_id(first, imports.len() as int),
    );
    let structs = struct_symbols(
        nodes,
        nodes_of_kind(nodes, "struct_item"@),
        file,
        file_module,
        nth_id(first, (imports.len() + functions.len()) as int),
    );
    imports + functions + structs
}

/// The symbols of a source file given its text, if it could be read: none when there is no
/// text or tree-sitter gives no usable tree.
pub open spec fn source_file_symbols(file: FileNode, source: Option<String>, first: u64) -> Seq<SymbolView> {
    match source {
        Some(text) => match rust_syntax(text@) {
            Some(nodes) => if positions_bounded(nodes) {
                file_symbols(
                    nodes,
                    file.id,
                    spec_canonical_module_path(spec_module_path_for_file(file.path@)),
                    first,
                )
            } else {
                Seq::empty()
            },
            None => Seq::empty(),
        },
        None => Seq::empty(),
    }
}

/// The symbols of the first `n` files, in file order, numbered from `first` on.
pub open spec fn repo_symbols(files: Seq<FileNode>, sources: Seq<Option<String>>, n: int, first: u64) -> Seq<SymbolView>
    decreases n,
{
    if n <= 0 {
        Seq::empty()
    } else {
        let before = repo_symbols(files, sources, n - 1, first);
        before + source_file_symbols(files[n - 1], sources[n - 1], nth_id(first, before.len() as int))
    }
}

/// The positions among the first `n` files of those whose text was read but gave no usable
/// syntax tree, in order.
pub open spec fn unparsed_files(sources: Seq<Option<String>>, n: int) -> Seq<usize>
    decreases n,
{
    if n <= 0 {
        Seq::empty()
    } else {
        let before = unparsed_files(sources, n - 1);
        match sources[n - 1] {
            Some(text) => match rust_syntax(text@) {
                Some(nodes) => if positions_bounded(nodes) {
                    before
                } else {
                    before.push((n - 1) as usize)
                },
                None => before.push((n - 1) as usize),
            },
            None => before,
        }
    }
}

/// The directory that relative file paths are taken from.
pub fn repo_root(path: &str, is_file: bool) -> (r: String)
    ensures
        r@ == spec_repo_root(path@, is_file),
{
    if is_file {
        match path_parent(&chars_of(path)) {
            Some(p) => string_of(p.as_slice()),
            None => path.to_owned(),
        }
    } else {
        path.to_owned()
    }
}

/// The paths of walked files made relative to the repository root.
pub fn relativize_files(base_path: &str, base_is_file: bool, files: Vec<String>) -> (r: Vec<String>)
    ensures
        strs(r@) == spec_relativize_files(base_path@, base_is_file, strs(files@)),
{
    let root = chars_of(repo_root(base_path, base_is_file).as_str());
    let mut r: Vec<String> = Vec::new();
    let mut i: usize = 0;
    let ghost expected = spec_relativize_files(base_path@, base_is_file, strs(files@));
    while i < files.len()
        invariant
            i <= files.len(),
            root@ == spec_repo_root(base_path@, base_is_file),
            expected == spec_relativize_files(base_path@, base_is_file, strs(files@)),
            strs(r@) == expected.take(i as int),
        decreases files.len() - i,
    {
        let ghost before = strs(r@);
        let f = chars_of(files[i].as_str());
        let rel = match path_strip_prefix(&f, &root) {
            Some(rest) => string_of(rest.as_slice()),
            None => files[i].clone(),
        };
        r.push(rel);
        assert(strs(r@) =~= before.push(expected[i as int]));
        assert(expected.take(i + 1) =~= expected.take(i as int).push(expected[i as int]));
        i += 1;
    }
    assert(expected.take(files.len() as int) =~= expected);
    r
}

/// A file or directory met while walking a repository.
pub struct WalkEntry {
    pub path: String,
    pub is_file: bool,
}

/// The paths of the walked entries that are Rust source files.
pub open spec fn rust_entries(entries: Seq<WalkEntry>) -> Seq<Seq<char>>
    decreases entries.len(),
{
    if entries.len() == 0 {
        Seq::empty()
    } else {
        let before = rust_entries(entries.drop_last());
        let e = entries.last();
        if e.is_file && spec_path_extension(e.path@) == Some(seq!['r', 's']) {
            before.push(e.path@)
        } else {
            before
        }
    }
}

/// The source files of a repository: the repository path itself when it is a file,
/// otherwise every walked entry that is a file with the extension `rs`, in walking order.
pub fn walk_dir(path: &str, path_is_file: bool, entries: &Vec<WalkEntry>) -> (r: Vec<String>)
    ensures
        strs(r@) == (if path_is_file {
            seq![path@]
        } else {
            rust_entries(entries@)
        }),
{
    let mut r: Vec<String> = Vec::new();
    if path_is_file {
        r.push(path.to_owned());
        assert(strs(r@) =~= seq![path@]);
        return r;
    }
    let mut i: usize = 0;
    assert(entries@.take(0) =~= Seq::<WalkEntry>::empty());
    while i < entries.len()
        invariant
            i <= entries.len(),
            strs(r@) == rust_entries(entries@.take(i as int)),
        decreases entries.len() - i,
    {
        assert(entries@.take(i + 1).drop_last() =~= entries@.take(i as int));
        let ghost before = strs(r@);
        let e = &entries[i];
        if e.is_file && has_rs_extension(&chars_of(e.path.as_str())) {
            r.push(e.path.clone());
            assert(strs(r@) =~= before.push(e.path@));
        }
        i += 1;
    }
    assert(entries@.take(entries.len() as int) =~= entries@);
    r
}

/// The command to add a repository: its name and its path.
#[derive(Debug, PartialEq, Eq)]
pub struct AddQuery {
    pub repo: String,
    pub path: String,
}

/// The command to delete a repository by name.
#[derive(Debug, PartialEq, Eq)]
pub struct DeleteQuery {
    pub repo: String,
}

impl Repo {
    /// A repository with a fresh identifier, the given files, and no symbols or edges yet.
    pub fn new(name: String, path: String, files: Vec<FileNode>, ids: &mut IdGenerator) -> (r: Repo)
        ensures
            r.id == RepoId(old(ids).upcoming()),
            final(ids).upcoming() == nth_id(old(ids).upcoming(), 1),
            r.name == name,
            r.root_path == path,
            r.files == files,
            r.symbols@.len() == 0,
            r.edges@.len() == 0,
    {
        Repo { id: get_id(ids), name, root_path: path, files, symbols: Vec::new(), edges: Vec::new() }
    }

    /// The directory that the repository's relative file paths are taken from.
    pub fn repo_root(&self, root_is_file: bool) -> (r: String)
        ensures
            r@ == spec_repo_root(self.root_path@, root_is_file),
    {
        repo_root(self.root_path.as_str(), root_is_file)
    }

    /// Where a file path of the repository points.
    pub fn resolve_file_path(&self, file: &str, root_is_file: bool) -> (r: String)
        ensures
            r@ == spec_resolve_file_path(self.root_path@, root_is_file, file@),
    {
        let f = chars_of(file);
        if f.len() > 0 && f[0] == '/' {
            file.to_owned()
        } else {
            let root = chars_of(self.repo_root(root_is_file).as_str());
            string_of(join_paths(&root, &f).as_slice())
        }
    }

    /// The edges of the repository: it contains each of its files, and each symbol's file
    /// contains the symbol.
    pub fn build_edges(&self, ids: &mut IdGenerator) -> (r: Vec<Edge>)
        ensures
            r@ == spec_build_edges(self.id, self.files@, self.symbols@, old(ids).upcoming()),
            final(ids).upcoming() == nth_id(old(ids).upcoming(), r@.len() as int),
    {
        let ghost first = ids.upcoming();
        let ghost expected = spec_build_edges(self.id, self.files@, self.symbols@, first);
        let mut edges: Vec<Edge> = Vec::new();
        let mut i: usize = 0;
        while i < self.files.len()
            invariant
                i <= self.files@.len(),
                expected == spec_build_edges(self.id, self.files@, self.symbols@, first),
                edges@ == expected.take(i as int),
                ids.upcoming() == nth_id(first, i as int),
            decreases self.files@.len() - i,
        {
            let id: EdgeId = get_id(ids);
            proof {
                crate::ids::lemma_nth_id_step(first, i as int);
            }
            edges.push(
                Edge {
                    id,
                    kind: EdgeKind::Contain,
                    from: NodeRef::Repo(self.id),
                    to: NodeRef::File(self.files[i].id),
                },
            );
            assert(edges@ =~= expected.take(i + 1));
            i += 1;
        }
        let nf = self.files.len();
        let mut j: usize = 0;
        while j < self.symbols.len()
            invariant
                nf == self.files@.len(),
                j <= self.symbols@.len(),
                expected == spec_build_edges(self.id, self.files@, self.symbols@, first),
                edges@ == expected.take(nf + j),
                ids.upcoming() == nth_id(first, nf + j),
            decreases self.symbols@.len() - j,
        {
            let id: EdgeId = get_id(ids);
            proof {
                crate::ids::lemma_nth_id_step(first, nf + j);
            }
            let symbol = &self.symbols[j];
            edges.push(
                Edge {
                    id,
                    kind: EdgeKind::Contain,
                    from: NodeRef::File(symbol.file),
                    to: NodeRef::Symbol(symbol.id),
                },
            );
            assert(edges@ =~= expected.take(nf + j + 1));
            j += 1;
        }
        assert(expected.take(nf + j) =~= expected);
        edges
    }

    /// The symbols of the repository's files, given the text of each file (`None` where it
    /// could not be read): for each file in order, its imports, functions and structs, named
    /// within the file's module; a file that tree-sitter cannot parse contributes nothing and
    /// is reported by its position, second in the result.
    pub fn extract_symbols(
        &self,
        parser: &mut RustParser,
        sources: &Vec<Option<String>>,
        ids: &mut IdGenerator,
    ) -> (r: (Vec<SymbolNode>, Vec<usize>))
        requires
            sources@.len() == self.files@.len(),
        ensures
            symbol_views(r.0@) == repo_symbols(self.files@, sources@, self.files@.len() as int, old(ids).upcoming()),
            r.1@ == unparsed_files(sources@, self.files@.len() as int),
            final(ids).upcoming() == nth_id(old(ids).upcoming(), r.0@.len() as int),
    {
        let ghost first = ids.upcoming();
        let mut symbols: Vec<SymbolNode> = Vec::new();
        let mut unparsed: Vec<usize> = Vec::new();
        let mut i: usize = 0;
        while i < self.files.len()
            invariant
                i <= self.files@.len(),
                sources@.len() == self.files@.len(),
                symbol_views(symbols@) == repo_symbols(self.files@, sources@, i as int, first),
                unparsed@ == unparsed_files(sources@, i as int),
                ids.upcoming() == nth_id(first, symbols@.len() as int),
            decreases self.files@.len() - i,
        {
            let file = &self.files[i];
            let ghost before = symbol_views(symbols@);
            let ghost start = ids.upcoming();
            if let Some(source) = &sources[i] {
                let module = module_path_for_file(file.path.as_str());
                if let Some(tree) = parser.parse(source.as_str()) {
                    if check_positions(&tree) {
                        let ghost fmod = spec_canonical_module_path(module@);
                        let mut imports = rs_extract_imports(&tree, file, module.as_str(), ids);
                        let ghost a = imports@.len() as int;
                        proof {
                            crate::ids::lemma_nth_id_compose(first, symbols@.len() as int, a);
                        }
                        let mut functions = rs_extract_functions(&tree, file, module.as_str(), ids);
                        let ghost b = functions@.len() as int;
                        proof {
                            crate::ids::lemma_nth_id_compose(start, a, b);
                            crate::ids::lemma_nth_id_compose(first, symbols@.len() as int, a + b);
                        }
                        let mut structs = rs_extract_structs(&tree, file, module.as_str(), ids);
                        let ghost c = structs@.len() as int;
                        proof {
                            crate::ids::lemma_nth_id_compose(start, a + b, c);
                            crate::ids::lemma_nth_id_compose(first, symbols@.len() as int, a + b + c);
                        }
                        let ghost added = symbol_views(imports@) + symbol_views(functions@)
                            + symbol_views(structs@);
                        symbols.append(&mut imports);
                        symbols.append(&mut functions);
                        symbols.append(&mut structs);
                        assert(symbol_views(symbols@) =~= before + added);
                    } else {
                        unparsed.push(i);
                    }
                } else {
                    unparsed.push(i);
                }
            }
            assert(symbol_views(symbols@) == repo_symbols(self.files@, sources@, i + 1, first));
            i += 1;
        }
        (symbols, unparsed)
    }

    /// The file that the first edge containing the symbol starts from.
    pub fn resolve_symbol_file_id(&self, symbol_id: SymbolId) -> (r: Option<FileId>)
        ensures
            r == symbol_file_from(self.edges@, symbol_id, 0),
    {
        let mut i: usize = 0;
        while i < self.edges.len()
            invariant
                i <= self.edges@.len(),
                symbol_file_from(self.edges@, symbol_id, 0) == symbol_file_from(
                    self.edges@,
                    symbol_id,
                    i as int,
                ),
            decreases self.edges@.len() - i,
        {
            let edge = &self.edges[i];
            if let (EdgeKind::Contain, NodeRef::File(file_id), NodeRef::Symbol(candidate)) = (
                edge.kind,
                edge.from,
                edge.to,
            ) {
                if candidate == symbol_id {
                    return Some(file_id);
                }
            }
            i += 1;
        }
        None
    }

    /// Whether some edge makes the repository contain the file.
    pub fn is_repo_file(&self, file_id: FileId) -> (b: bool)
        ensures
            b == spec_is_repo_file(self.edges@, self.id, file_id),
    {
        let mut i: usize = 0;
        while i < self.edges.len()
            invariant
                i <= self.edges@.len(),
                forall|k: int|
                    0 <= k < i ==> !(self.edges@[k].kind == EdgeKind::Contain && #[trigger] self.edges@[k].from
                        == NodeRef::Repo(self.id) && self.edges@[k].to == NodeRef::File(file_id)),
            decreases self.edges@.len() - i,
        {
            let edge = &self.edges[i];
            if let (EdgeKind::Contain, NodeRef::Repo(repo_id), NodeRef::File(candidate)) = (
                edge.kind,
                edge.from,
                edge.to,
            ) {
                if repo_id == self.id && candidate == file_id {
                    return true;
                }
            }
            i += 1;
        }
        false
    }

    /// The position of the file that holds the symbol, when the edges tie the symbol to a
    /// file of the repository.
    pub fn resolve_symbol_file(&self, symbol_id: SymbolId) -> (r: Option<usize>)
        ensures
            match r {
                Some(i) => spec_symbol_file(*self, symbol_id) == Some(i as int) && i < self.files@.len(),
                None => spec_symbol_file(*self, symbol_id) is None,
            },
    {
        let file_id = match self.resolve_symbol_file_id(symbol_id) {
            Some(f) => f,
            None => return None,
        };
        if !self.is_repo_file(file_id) {
            return None;
        }
        let mut i: usize = 0;
        while i < self.files.len()
            invariant
                i <= self.files@.len(),
                symbol_file_from(self.edges@, symbol_id, 0) == Some(file_id),
                spec_is_repo_file(self.edges@, self.id, file_id),
                file_index_from(self.files@, file_id, 0) == file_index_from(
                    self.files@,
                    file_id,
                    i as int,
                ),
            decreases self.files@.len() - i,
        {
            if self.files[i].id == file_id {
                return Some(i);
            }
            i += 1;
        }
        None
    }

    /// The path of the file that holds the symbol, when the edges tie the symbol to a file
    /// of the repository.
    pub fn resolve_symbol_file_path(&self, symbol_id: SymbolId, root_is_file: bool) -> (r: Option<String>)
        ensures
            opt_str(r) == spec_symbol_file_path(*self, symbol_id, root_is_file),
    {
        match self.resolve_symbol_file(symbol_id) {
            Some(i) => Some(self.resolve_file_path(self.files[i].path.as_str(), root_is_file)),
            None => None,
        }
    }

    /// The symbols called `query`, by name or by qualified name, whose file the repository
    /// knows, in the order they were found.
    pub fn find_symbols(&self, query: &str) -> (r: Vec<SymbolNode>)
        ensures
            symbol_views(r@) == found_symbols(*self, self.symbols@, query@),
    {
        let mut r: Vec<SymbolNode> = Vec::new();
        let mut i: usize = 0;
        assert(self.symbols@.take(0) =~= Seq::<SymbolNode>::empty());
        while i < self.symbols.len()
            invariant
                i <= self.symbols@.len(),
                symbol_views(r@) == found_symbols(*self, self.symbols@.take(i as int), query@),
            decreases self.symbols@.len() - i,
        {
            assert(self.symbols@.take(i + 1).drop_last() =~= self.symbols@.take(i as int));
            let ghost before = symbol_views(r@);
            let symbol = &self.symbols[i];
            if (same_str(symbol.name.as_str(), query) || same_str(symbol.qualified_name.as_str(), query))
                && self.resolve_symbol_file(symbol.id).is_some() {
                let copy = symbol.duplicate();
                r.push(copy);
                assert(symbol_views(r@) =~= before.push(symbol@));
            }
            i += 1;
        }
        assert(self.symbols@.take(self.symbols.len() as int) =~= self.symbols@);
        r
    }
}

/// Adds a repository from its canonical path and the files found under it: the files get
/// fresh identifiers in order and paths relative to the repository root, then the
/// repository gets the next identifier.
pub fn repo_add(query: AddQuery, path_is_file: bool, walked: Vec<String>, ids: &mut IdGenerator) -> (r: Repo)
    ensures
        r.name@ == query.repo@,
        r.root_path@ == query.path@,
        strs(r.files@.map_values(|f: FileNode| f.path)) == spec_relativize_files(
            query.path@,
            path_is_file,
            strs(walked@),
        ),
        forall|k: int|
            0 <= k < r.files@.len() ==> #[trigger] r.files@[k].id == FileId(
                nth_id(old(ids).upcoming(), k),
            ) && r.files@[k].language == LanguageKind::Rust,
        r.id == RepoId(nth_id(old(ids).upcoming(), r.files@.len() as int)),
        final(ids).upcoming() == nth_id(old(ids).upcoming(), r.files@.len() as int + 1),
        r.symbols@.len() == 0,
        r.edges@.len() == 0,
{
    let ghost first = ids.upcoming();
    let paths = relativize_files(query.path.as_str(), path_is_file, walked);
    let ghost expected = strs(paths@);
    let mut files: Vec<FileNode> = Vec::new();
    let mut i: usize = 0;
    while i < paths.len()
        invariant
            i <= paths.len(),
            expected == strs(paths@),
            files@.len() == i,
            strs(files@.map_values(|f: FileNode| f.path)) == expected.take(i as int),
            forall|k: int|
                0 <= k < files@.len() ==> #[trigger] files@[k].id == FileId(nth_id(first, k))
                    && files@[k].language == LanguageKind::Rust,
            ids.upcoming() == nth_id(first, i as int),
        decreases paths.len() - i,
    {
        let id: FileId = get_id(ids);
        proof {
            crate::ids::lemma_nth_id_step(first, i as int);
        }
        let ghost before = files@;
        files.push(FileNode { id, path: paths[i].clone(), language: LanguageKind::Rust });
        assert(strs(files@.map_values(|f: FileNode| f.path)) =~= expected.take(i + 1));
        i += 1;
    }
    assert(expected.take(paths.len() as int) =~= expected);
    let ghost n = files@.len();
    let repo = Repo::new(query.repo, query.path, files, ids);
    proof {
        crate::ids::lemma_nth_id_step(first, n as int);
    }
    repo
}

/// Deleting a repository is not supported: nothing is deleted and the answer is `false`.
pub fn repo_delete(_query: DeleteQuery) -> (r: bool)
    ensures
        !r,
{
    false
}


proof fn lemma_built_edges_symbol_file(
    repo: RepoId,
    files: Seq<FileNode>,
    symbols: Seq<SymbolNode>,
    first: u64,
    k: int,
    i: int,
)
    requires
        0 <= k < symbols.len(),
        0 <= i <= files.len() + k,
        forall|j: int|
            0 <= j < k && (#[trigger] symbols[j]).id == symbols[k].id ==> symbols[j].file
                == symbols[k].file,
    ensures
        symbol_file_from(spec_build_edges(repo, files, symbols, first), symbols[k].id, i) == Some(
            symbols[k].file,
        ),
    decreases files.len() + k - i,
{
    let edges = spec_build_edges(repo, files, symbols, first);
    if i < files.len() + k {
        lemma_built_edges_symbol_file(repo, files, symbols, first, k, i + 1);
        if i >= files.len() {
            let j = i - files.len();
            assert(symbols[j].id == symbols[k].id ==> symbols[j].file == symbols[k].file);
        }
    }
}

/// The position of a file in the list is found when some file carries the identifier.
pub proof fn lemma_file_index_found(files: Seq<FileNode>, file: FileId, i: int, m: int)
    requires
        0 <= i <= m < files.len(),
        files[m].id == file,
    ensures
        file_index_from(files, file, i) matches Some(p) && i <= p <= m && files[p].id == file,
    decreases m - i,
{
    if files[i].id != file {
        lemma_file_index_found(files, file, i + 1, m);
    }
}

/// Once `build_edges` has tied a repository together, the repository contains each of its
/// files, and a symbol is located in its own file: the position of the first file carrying
/// the symbol's file identifier, found whenever such a file is listed. Earlier symbols with
/// the same identifier must name the same file.
pub proof fn lemma_built_edges_locate_symbols(repo: Repo, first: u64, k: int)
    requires
        repo.edges@ == spec_build_edges(repo.id, repo.files@, repo.symbols@, first),
        0 <= k < repo.symbols@.len(),
        forall|j: int|
            0 <= j < k && (#[trigger] repo.symbols@[j]).id == repo.symbols@[k].id
                ==> repo.symbols@[j].file == repo.symbols@[k].file,
    ensures
        forall|f: int|
            0 <= f < repo.files@.len() ==> spec_is_repo_file(
                repo.edges@,
                repo.id,
                (#[trigger] repo.files@[f]).id,
            ),
        spec_symbol_file(repo, repo.symbols@[k].id) == file_index_from(
            repo.files@,
            repo.symbols@[k].file,
            0,
        ),
        (exists|m: int| 0 <= m < repo.files@.len() && repo.files@[m].id == repo.symbols@[k].file)
            ==> spec_symbol_file(repo, repo.symbols@[k].id) is Some,
{
    let files = repo.files@;
    let edges = repo.edges@;
    assert forall|f: int| 0 <= f < files.len() implies spec_is_repo_file(
        edges,
        repo.id,
        (#[trigger] files[f]).id,
    ) by {
        assert(edges[f].from == NodeRef::Repo(repo.id));
    }
    lemma_built_edges_symbol_file(repo.id, files, repo.symbols@, first, k, 0);
    let file = repo.symbols@[k].file;
    if exists|m: int| 0 <= m < files.len() && files[m].id == file {
        let m = choose|m: int| 0 <= m < files.len() && files[m].id == file;
        lemma_file_index_found(files, file, 0, m);
        assert(edges[m].from == NodeRef::Repo(repo.id));
    } else {
        lemma_file_index_absent(files, file, 0);
    }
}

proof fn lemma_file_index_absent(files: Seq<FileNode>, file: FileId, i: int)
    requires
        0 <= i,
        forall|m: int| 0 <= m < files.len() ==> (#[trigger] files[m]).id != file,
    ensures
        file_index_from(files, file, i) is None,
    decreases files.len() - i,
{
    if i < files.len() {
        lemma_file_index_absent(files, file, i + 1);
    }
}


/// The module that the symbols of a repository file are named in.
pub open spec fn file_module(file: FileNode) -> Seq<char> {
    spec_canonical_module_path(spec_module_path_for_file(file.path@))
}

proof fn lemma_file_symbols_named(nodes: Seq<SyntaxNode>, file: FileId, module: Seq<char>, first: u64)
    ensures
        forall|k: int|
            0 <= k < file_symbols(nodes, file, module, first).len() ==> {
                let v = #[trigger] file_symbols(nodes, file, module, first)[k];
                &&& well_named(v, file, module)
                &&& v.id == SymbolId(nth_id(first, k))
            },
{
    let imports = import_symbols(nodes, nodes_of_kind(nodes, "use_declaration"@), file, module, first);
    let a = imports.len() as int;
    let functions = function_symbols(
        nodes,
        nodes_of_kind(nodes, "function_item"@),
        file,
        module,
        nth_id(first, a),
    );
    let b = functions.len() as int;
    let structs = struct_symbols(
        nodes,
        nodes_of_kind(nodes, "struct_item"@),
        file,
        module,
        nth_id(first, a + b),
    );
    lemma_import_symbols_named(nodes, nodes_of_kind(nodes, "use_declaration"@), file, module, first);
    lemma_function_symbols_named(
        nodes,
        nodes_of_kind(nodes, "function_item"@),
        file,
        module,
        nth_id(first, a),
    );
    lemma_struct_symbols_named(
        nodes,
        nodes_of_kind(nodes, "struct_item"@),
        file,
        module,
        nth_id(first, a + b),
    );
    let r = file_symbols(nodes, file, module, first);
    assert(r == imports + functions + structs);
    assert forall|k: int| 0 <= k < r.len() implies {
        let v = #[trigger] r[k];
        &&& well_named(v, file, module)
        &&& v.id == SymbolId(nth_id(first, k))
    } by {
        if k < a {
            assert(r[k] == imports[k]);
        } else if k < a + b {
            assert(r[k] == functions[k - a]);
            lemma_nth_id_compose(first, a, k - a);
        } else {
            assert(r[k] == structs[k - a - b]);
            lemma_nth_id_compose(first, a + b, k - a - b);
        }
    }
}

/// The symbols of the first `n` files are numbered one after another from `first` on, and
/// each is well named within one of those files.
pub proof fn lemma_repo_symbols_named(
    files: Seq<FileNode>,
    sources: Seq<Option<String>>,
    n: int,
    first: u64,
)
    requires
        0 <= n <= files.len(),
        n <= sources.len(),
    ensures
        forall|k: int|
            0 <= k < repo_symbols(files, sources, n, first).len() ==> {
                let v = #[trigger] repo_symbols(files, sources, n, first)[k];
                &&& v.id == SymbolId(nth_id(first, k))
                &&& exists|f: int| 0 <= f < n && well_named(v, files[f].id, file_module(files[f]))
            },
    decreases n,
{
    if n > 0 {
        let before = repo_symbols(files, sources, n - 1, first);
        let a = before.len() as int;
        lemma_repo_symbols_named(files, sources, n - 1, first);
        let file = files[n - 1];
        let here = source_file_symbols(file, sources[n - 1], nth_id(first, a));
        let r = repo_symbols(files, sources, n, first);
        match sources[n - 1] {
            Some(text) => match rust_syntax(text@) {
                Some(nodes) => if positions_bounded(nodes) {
                    lemma_file_symbols_named(nodes, file.id, file_module(file), nth_id(first, a));
                },
                None => {},
            },
            None => {},
        }
        assert forall|k: int| 0 <= k < r.len() implies {
            let v = #[trigger] r[k];
            &&& v.id == SymbolId(nth_id(first, k))
            &&& exists|f: int| 0 <= f < n && well_named(v, files[f].id, file_module(files[f]))
        } by {
            if k < a {
                assert(r[k] == before[k]);
                let f = choose|f: int|
                    0 <= f < n - 1 && well_named(before[k], files[f].id, file_module(files[f]));
                assert(well_named(r[k], files[f].id, file_module(files[f])));
            } else {
                assert(r[k] == here[k - a]);
                lemma_nth_id_compose(first, a, k - a);
                assert(well_named(r[k], files[n - 1].id, file_module(files[n - 1])));
            }
        }
    }
}

/// The extraction and graph pipeline: the symbols extracted from a repository's files carry
/// distinct identifiers and each is well named within one of the files; once the edges are
/// built, each is located in a file of the repository that carries its file identifier.
pub proof fn lemma_extracted_symbols_located(
    repo: Repo,
    sources: Seq<Option<String>>,
    first: u64,
    edge_first: u64,
    k: int,
)
    requires
        sources.len() == repo.files@.len(),
        symbol_views(repo.symbols@) == repo_symbols(
            repo.files@,
            sources,
            repo.files@.len() as int,
            first,
        ),
        repo.edges@ == spec_build_edges(repo.id, repo.files@, repo.symbols@, edge_first),
        0 <= k < repo.symbols@.len(),
    ensures
        forall|j: int| 0 <= j < repo.symbols@.len() && j != k ==> (#[trigger] repo.symbols@[j]).id
            != repo.symbols@[k].id,
        exists|f: int|
            0 <= f < repo.files@.len() && well_named(
                repo.symbols@[k]@,
                repo.files@[f].id,
                file_module(repo.files@[f]),
            ),
        spec_symbol_file(repo, repo.symbols@[k].id) matches Some(p) && 0 <= p < repo.files@.len()
            && repo.files@[p].id == repo.symbols@[k].file,
{
    let files = repo.files@;
    let syms = repo.symbols@;
    let views = repo_symbols(files, sources, files.len() as int, first);
    lemma_repo_symbols_named(files, sources, files.len() as int, first);
    assert(repo.symbols.len() == syms.len());
    assert(views[k] == syms[k]@);
    assert forall|j: int| 0 <= j < syms.len() && j != k implies (#[trigger] syms[j]).id
        != syms[k].id by {
        assert(views[j] == syms[j]@);
        if j < k {
            lemma_ids_distinct(first, j, k);
        } else {
            lemma_ids_distinct(first, k, j);
        }
    }
    let f = choose|f: int| 0 <= f < files.len() && well_named(views[k], files[f].id, file_module(files[f]));
    lemma_built_edges_locate_symbols(repo, edge_first, k);
    lemma_file_index_found(files, syms[k].file, 0, f);
}


/// What `relativize_files` stores of a file under the repository root, `resolve_file_path`
/// locates again: the stored path resolved against the same root has the file's components.
pub proof fn lemma_relativize_then_resolve(base: Seq<char>, is_file: bool, f: Seq<char>)
    requires
        spec_starts_with(f, spec_repo_root(base, is_file)),
    ensures
        components(
            spec_resolve_file_path(base, is_file, spec_relativize_files(base, is_file, seq![f])[0]),
        ) == components(f),
{
    lemma_strip_then_join(spec_repo_root(base, is_file), f);
}

} // verus!
