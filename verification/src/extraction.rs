//! Symbol extraction: imports, functions and structs read from the syntax tree of a Rust
//! source file, each named within the module it is declared in.
use vstd::prelude::*;
use crate::ids::{get_id, nth_id, FileId, IdGenerator, SymbolId};
use crate::naming::{
    join_path_chars, make_qualified_name_chars, resolve_import_path_chars,
    spec_canonical_module_path, spec_join_path, spec_make_qualified_name,
    spec_resolve_import_path, canonical_module_path_chars,
};
use crate::repo::{
    FileNode, FunctionInfo, ImportInfo, ImportView, InfoView, Span, StructInfo, SymbolInfo,
    SymbolNode, SymbolView, symbol_views,
};
use crate::syntax::{
    ancestors, child_by_field, children_from, find_named_child, idx, named_child, named_children,
    nodes_of_kind, text_of, SyntaxNode, SyntaxTree,
};
use crate::text::{
    chars_of, concat_dc, dcolon, has_prefix, join_dc, join_with_dcolon, opt_str, string_of, strs, views,
};

verus! {

/// Every node position leaves room for counting lines and columns from 1.
pub open spec fn positions_bounded(s: Seq<SyntaxNode>) -> bool {
    forall|i: int|
        0 <= i < s.len() ==> {
            &&& #[trigger] s[i].start.0 < usize::MAX
            &&& s[i].start.1 < usize::MAX
            &&& s[i].end.0 < usize::MAX
            &&& s[i].end.1 < usize::MAX
        }
}

/// The span of node `i`: its start and end, lines and columns counted from 1.
pub open spec fn span_of(s: Seq<SyntaxNode>, i: int) -> Span {
    Span {
        start_line: (s[i].start.0 + 1) as usize,
        start_col: (s[i].start.1 + 1) as usize,
        end_line: (s[i].end.0 + 1) as usize,
        end_col: (s[i].end.1 + 1) as usize,
    }
}

/// An import of `path`, not yet resolved.
pub open spec fn plain_import(path: Seq<char>, alias: Option<Seq<char>>, is_glob: bool) -> ImportView {
    ImportView { import_path: path, alias, is_glob, resolved_path: None }
}

/// The child under `field`, or else the `n`-th named child.
pub open spec fn field_or_named(s: Seq<SyntaxNode>, a: int, field: Seq<char>, n: int) -> Option<int> {
    match child_by_field(s, a, field) {
        Some(c) => Some(c),
        None => named_child(s, a, n),
    }
}

/// An optional node position as a plain integer.
pub open spec fn opt_idx(node: Option<usize>) -> Option<int> {
    match node {
        Some(c) => Some(c as int),
        None => None,
    }
}

/// The text of an optional node.
pub open spec fn opt_text(s: Seq<SyntaxNode>, node: Option<int>) -> Option<Seq<char>> {
    match node {
        Some(c) => text_of(s, c),
        None => None,
    }
}

/// The text of an optional node, empty when there is none.
pub open spec fn text_or_empty(s: Seq<SyntaxNode>, node: Option<int>) -> Seq<char> {
    match opt_text(s, node) {
        Some(t) => t,
        None => Seq::empty(),
    }
}

/// Node kinds whose text is the imported path itself.
pub open spec fn is_path_leaf_kind(kind: Seq<char>) -> bool {
    kind == "identifier"@ || kind == "scoped_identifier"@ || kind == "crate"@ || kind == "self"@
        || kind == "super"@ || kind == "metavariable"@
}

/// The import of a node's own text under `prefix`, when it has text.
pub open spec fn text_import(s: Seq<SyntaxNode>, node: int, prefix: Seq<char>) -> Seq<ImportView> {
    match text_of(s, node) {
        Some(t) => seq![plain_import(spec_join_path(prefix, t), None, false)],
        None => Seq::empty(),
    }
}

/// The path of a glob import under `base`: `*` alone when `base` is empty.
pub open spec fn glob_path(base: Seq<char>) -> Seq<char> {
    if base.len() == 0 {
        seq!['*']
    } else {
        base + dcolon() + seq!['*']
    }
}

/// The imports that the part of a `use` declaration rooted at `node` brings in, each path
/// under `prefix`.
pub open spec fn spec_collect_imports(s: Seq<SyntaxNode>, node: int, prefix: Seq<char>) -> Seq<ImportView>
    decreases s.len() - node, 1int, 0int,
{
    if node < 0 || node >= s.len() {
        Seq::empty()
    } else {
        let kind = s[node].kind@;
        if is_path_leaf_kind(kind) {
            text_import(s, node, prefix)
        } else if kind == "use_as_clause"@ {
            let path = text_or_empty(s, field_or_named(s, node, "path"@, 0));
            let alias = opt_text(s, field_or_named(s, node, "alias"@, 1));
            seq![plain_import(spec_join_path(prefix, path), alias, false)]
        } else if kind == "use_wildcard"@ {
            let base = spec_join_path(prefix, text_or_empty(s, field_or_named(s, node, "path"@, 0)));
            seq![plain_import(glob_path(base), None, true)]
        } else if kind == "use_list"@ {
            spec_collect_list(s, named_children(s, node), node, prefix)
        } else if kind == "scoped_use_list"@ {
            let scoped = spec_join_path(
                prefix,
                text_or_empty(s, field_or_named(s, node, "path"@, 0)),
            );
            let list = match child_by_field(s, node, "list"@) {
                Some(l) => Some(l),
                None => find_named_child(s, node, "use_list"@),
            };
            match list {
                Some(l) => spec_collect_list(s, named_children(s, l), node, scoped),
                None => Seq::empty(),
            }
        } else if named_children(s, node).len() == 0 {
            text_import(s, node, prefix)
        } else {
            spec_collect_list(s, named_children(s, node), node, prefix)
        }
    }
}

/// The imports of each of `nodes` in turn (all of them after `bound`), under `prefix`.
pub open spec fn spec_collect_list(s: Seq<SyntaxNode>, nodes: Seq<int>, bound: int, prefix: Seq<char>) -> Seq<
    ImportView,
>
    decreases s.len() - bound, 0int, nodes.len(),
{
    if nodes.len() == 0 {
        Seq::empty()
    } else {
        let before = spec_collect_list(s, nodes.drop_last(), bound, prefix);
        if bound < nodes.last() < s.len() {
            before + spec_collect_imports(s, nodes.last(), prefix)
        } else {
            before
        }
    }
}

/// The imports of a `use` declaration: those of its argument, with no prefix.
pub open spec fn spec_extract_import_info(s: Seq<SyntaxNode>, node: int) -> Seq<ImportView> {
    match field_or_named(s, node, "argument"@, 0) {
        Some(arg) => spec_collect_imports(s, arg, Seq::empty()),
        None => Seq::empty(),
    }
}

/// The abstract values of a list of imports.
pub open spec fn import_views(v: Seq<ImportInfo>) -> Seq<ImportView> {
    v.map_values(|i: ImportInfo| i@)
}

/// The name of a module item, when it has one with text.
pub open spec fn mod_name(s: Seq<SyntaxNode>, a: int) -> Option<Seq<char>> {
    if s[a].kind@ == "mod_item"@ {
        opt_text(s, child_by_field(s, a, "name"@))
    } else {
        None
    }
}

/// The names of the named module items among `nodes`, in order.
pub open spec fn mod_names(s: Seq<SyntaxNode>, nodes: Seq<int>) -> Seq<Seq<char>>
    decreases nodes.len(),
{
    if nodes.len() == 0 {
        Seq::empty()
    } else {
        let before = mod_names(s, nodes.drop_last());
        match mod_name(s, nodes.last()) {
            Some(n) => before.push(n),
            None => before,
        }
    }
}

/// The module a node is declared in: the file's module, followed by the names of the
/// enclosing `mod` items from the outermost in.
pub open spec fn spec_module_path_for_node(s: Seq<SyntaxNode>, node: int, file_module: Seq<char>) -> Seq<char> {
    let names = mod_names(s, ancestors(s, node));
    if names.len() == 0 {
        file_module
    } else {
        file_module + dcolon() + join_dc(names)
    }
}

/// The symbol of one import found in the `use` declaration `node`.
pub open spec fn import_symbol(
    s: Seq<SyntaxNode>,
    node: int,
    import: ImportView,
    file: crate::ids::FileId,
    file_module: Seq<char>,
    id: u64,
) -> SymbolView {
    let module = spec_module_path_for_node(s, node, file_module);
    let name = match import.alias {
        Some(a) => a,
        None => import.import_path,
    };
    SymbolView {
        id: SymbolId(id),
        file,
        name,
        qualified_name: spec_make_qualified_name(module, name),
        module: Some(module),
        info: InfoView::Import(
            ImportView {
                resolved_path: Some(spec_resolve_import_path(module, import.import_path)),
                ..import
            },
        ),
        span: span_of(s, node),
    }
}

/// The symbols of the imports of each `use` declaration among `decls`, numbered from the
/// `first` identifier on.
pub open spec fn import_symbols(
    s: Seq<SyntaxNode>,
    decls: Seq<int>,
    file: crate::ids::FileId,
    file_module: Seq<char>,
    first: u64,
) -> Seq<SymbolView>
    decreases decls.len(),
{
    if decls.len() == 0 {
        Seq::empty()
    } else {
        let before = import_symbols(s, decls.drop_last(), file, file_module, first);
        let node = decls.last();
        let imports = spec_extract_import_info(s, node);
        before + Seq::new(
            imports.len(),
            |k: int| import_symbol(s, node, imports[k], file, file_module, nth_id(first, before.len() + k)),
        )
    }
}

/// The name of an item, or `unknown` when it has none with text.
pub open spec fn item_name(s: Seq<SyntaxNode>, node: int) -> Seq<char> {
    match opt_text(s, child_by_field(s, node, "name"@)) {
        Some(t) => t,
        None => "unknown"@,
    }
}

/// The texts of the parameters among `nodes`.
pub open spec fn parameter_texts(s: Seq<SyntaxNode>, nodes: Seq<int>) -> Seq<Seq<char>>
    decreases nodes.len(),
{
    if nodes.len() == 0 {
        Seq::empty()
    } else {
        let before = parameter_texts(s, nodes.drop_last());
        let n = nodes.last();
        if (s[n].kind@ == "parameter"@ || s[n].kind@ == "self_parameter"@) && text_of(s, n) is Some {
            before.push(text_of(s, n)->0)
        } else {
            before
        }
    }
}

/// The parameters of a function item, when it has a parameter list.
pub open spec fn function_args(s: Seq<SyntaxNode>, node: int) -> Option<Seq<Seq<char>>> {
    match child_by_field(s, node, "parameters"@) {
        Some(p) => Some(parameter_texts(s, named_children(s, p))),
        None => None,
    }
}

/// The body of a struct item: its `body` field, or else its first field list.
pub open spec fn struct_body(s: Seq<SyntaxNode>, node: int) -> Option<int> {
    match child_by_field(s, node, "body"@) {
        Some(b) => Some(b),
        None => match find_named_child(s, node, "field_declaration_list"@) {
            Some(b) => Some(b),
            None => find_named_child(s, node, "ordered_field_declaration_list"@),
        },
    }
}

/// The member of a field declaration: its name, or else its type.
pub open spec fn field_member(s: Seq<SyntaxNode>, n: int) -> Option<Seq<char>> {
    if s[n].kind@ != "field_declaration"@ {
        None
    } else {
        match opt_text(s, child_by_field(s, n, "name"@)) {
            Some(t) => Some(t),
            None => opt_text(s, child_by_field(s, n, "type"@)),
        }
    }
}

/// The members named by the field declarations among `nodes`.
pub open spec fn field_members(s: Seq<SyntaxNode>, nodes: Seq<int>) -> Seq<Seq<char>>
    decreases nodes.len(),
{
    if nodes.len() == 0 {
        Seq::empty()
    } else {
        let before = field_members(s, nodes.drop_last());
        match field_member(s, nodes.last()) {
            Some(m) => before.push(m),
            None => before,
        }
    }
}

/// The texts of the nodes among `nodes` that are neither attributes nor visibility
/// modifiers: the field types of a tuple struct.
pub open spec fn tuple_members(s: Seq<SyntaxNode>, nodes: Seq<int>) -> Seq<Seq<char>>
    decreases nodes.len(),
{
    if nodes.len() == 0 {
        Seq::empty()
    } else {
        let before = tuple_members(s, nodes.drop_last());
        let n = nodes.last();
        if s[n].kind@ != "attribute_item"@ && s[n].kind@ != "visibility_modifier"@ && text_of(s, n) is Some {
            before.push(text_of(s, n)->0)
        } else {
            before
        }
    }
}

/// The members of a struct item.
pub open spec fn struct_members(s: Seq<SyntaxNode>, node: int) -> Seq<Seq<char>> {
    match struct_body(s, node) {
        Some(b) => if s[b].kind@ == "ordered_field_declaration_list"@ {
            tuple_members(s, named_children(s, b))
        } else {
            field_members(s, named_children(s, b))
        },
        None => Seq::empty(),
    }
}

/// The symbol of a function item or a struct item.
pub open spec fn item_symbol(
    s: Seq<SyntaxNode>,
    node: int,
    info: InfoView,
    file: crate::ids::FileId,
    file_module: Seq<char>,
    id: u64,
) -> SymbolView {
    let module = spec_module_path_for_node(s, node, file_module);
    let name = item_name(s, node);
    SymbolView {
        id: SymbolId(id),
        file,
        name,
        qualified_name: spec_make_qualified_name(module, name),
        module: Some(module),
        info,
        span: span_of(s, node),
    }
}

/// The symbols of the function items among `items`, numbered from `first` on.
pub open spec fn function_symbols(
    s: Seq<SyntaxNode>,
    items: Seq<int>,
    file: crate::ids::FileId,
    file_module: Seq<char>,
    first: u64,
) -> Seq<SymbolView> {
    Seq::new(
        items.len(),
        |k: int| item_symbol(s, items[k], InfoView::Function(function_args(s, items[k])), file, file_module, nth_id(first, k)),
    )
}

/// The symbols of the struct items among `items`, numbered from `first` on.
pub open spec fn struct_symbols(
    s: Seq<SyntaxNode>,
    items: Seq<int>,
    file: crate::ids::FileId,
    file_module: Seq<char>,
    first: u64,
) -> Seq<SymbolView> {
    Seq::new(
        items.len(),
        |k: int| item_symbol(s, items[k], InfoView::Struct(struct_members(s, items[k])), file, file_module, nth_id(first, k)),
    )
}

/// The span of node `i`.
pub fn extract_span(tree: &SyntaxTree, i: usize) -> (r: Span)
    requires
        i < tree.nodes@.len(),
        positions_bounded(tree.nodes@),
    ensures
        r == span_of(tree.nodes@, i as int),
{
    let node = &tree.nodes[i];
    assert(node.start.0 < usize::MAX);
    Span {
        start_line: node.start.0 + 1,
        start_col: node.start.1 + 1,
        end_line: node.end.0 + 1,
        end_col: node.end.1 + 1,
    }
}

/// Whether every node position leaves room for counting from 1.
pub fn check_positions(tree: &SyntaxTree) -> (b: bool)
    ensures
        b == positions_bounded(tree.nodes@),
{
    let mut i: usize = 0;
    while i < tree.nodes.len()
        invariant
            i <= tree.nodes@.len(),
            forall|k: int|
                0 <= k < i ==> {
                    &&& #[trigger] tree.nodes@[k].start.0 < usize::MAX
                    &&& tree.nodes@[k].start.1 < usize::MAX
                    &&& tree.nodes@[k].end.0 < usize::MAX
                    &&& tree.nodes@[k].end.1 < usize::MAX
                },
        decreases tree.nodes@.len() - i,
    {
        let n = &tree.nodes[i];
        if n.start.0 == usize::MAX || n.start.1 == usize::MAX || n.end.0 == usize::MAX
            || n.end.1 == usize::MAX {
            assert(!(tree.nodes@[i as int].start.0 < usize::MAX && tree.nodes@[i as int].start.1
                < usize::MAX && tree.nodes@[i as int].end.0 < usize::MAX
                && tree.nodes@[i as int].end.1 < usize::MAX));
            return false;
        }
        i += 1;
    }
    true
}

fn field_or_named_child(tree: &SyntaxTree, a: usize, field: &str, n: usize) -> (r: Option<usize>)
    requires
        a < tree.nodes@.len(),
    ensures
        r matches Some(c) ==> field_or_named(tree.nodes@, a as int, field@, n as int) == Some(
            c as int,
        ) && c < tree.nodes@.len(),
        r is None ==> field_or_named(tree.nodes@, a as int, field@, n as int) is None,
{
    match tree.child_by_field_name(a, field) {
        Some(c) => Some(c),
        None => tree.named_child(a, n),
    }
}

fn opt_node_text(tree: &SyntaxTree, node: Option<usize>) -> (r: Option<Vec<char>>)
    requires
        node matches Some(c) ==> c < tree.nodes@.len(),
    ensures
        match r {
            Some(t) => opt_text(tree.nodes@, opt_idx(node)) == Some(t@),
            None => opt_text(tree.nodes@, opt_idx(node)) is None,
        },
{
    match node {
        Some(c) => match &tree.nodes[c].text {
            Some(t) => Some(chars_of(t.as_str())),
            None => None,
        },
        None => None,
    }
}

fn text_or_empty_chars(tree: &SyntaxTree, node: Option<usize>) -> (r: Vec<char>)
    requires
        node matches Some(c) ==> c < tree.nodes@.len(),
    ensures
        r@ == text_or_empty(tree.nodes@, opt_idx(node)),
{
    match opt_node_text(tree, node) {
        Some(t) => t,
        None => Vec::new(),
    }
}

fn push_import(out: &mut Vec<ImportInfo>, path: &Vec<char>, alias: Option<String>, is_glob: bool)
    ensures
        import_views(final(out)@) == import_views(old(out)@).push(
            plain_import(path@, opt_str(alias), is_glob),
        ),
{
    let ghost before = import_views(out@);
    out.push(
        ImportInfo {
            import_path: string_of(path.as_slice()),
            alias,
            is_glob,
            resolved_path: None,
        },
    );
    assert(import_views(out@) =~= before.push(plain_import(path@, opt_str(alias), is_glob)));
}

fn push_text_import(tree: &SyntaxTree, node: usize, prefix: &Vec<char>, out: &mut Vec<ImportInfo>)
    requires
        node < tree.nodes@.len(),
    ensures
        import_views(final(out)@) == import_views(old(out)@) + text_import(
            tree.nodes@,
            node as int,
            prefix@,
        ),
{
    let ghost before = import_views(out@);
    match &tree.nodes[node].text {
        Some(t) => {
            push_import(out, &join_path_chars(prefix, &chars_of(t.as_str())), None, false);
            assert(import_views(out@) =~= before + text_import(tree.nodes@, node as int, prefix@));
        },
        None => {
            assert(import_views(out@) =~= before + text_import(tree.nodes@, node as int, prefix@));
        },
    }
}

fn is_path_leaf(tree: &SyntaxTree, node: usize) -> (b: bool)
    requires
        node < tree.nodes@.len(),
    ensures
        b == is_path_leaf_kind(tree.nodes@[node as int].kind@),
{
    tree.kind_is(node, "identifier") || tree.kind_is(node, "scoped_identifier") || tree.kind_is(
        node,
        "crate",
    ) || tree.kind_is(node, "self") || tree.kind_is(node, "super") || tree.kind_is(
        node,
        "metavariable",
    )
}

/// Appends the imports of each of `nodes` in turn, under `prefix`.
pub fn collect_from_list(
    tree: &SyntaxTree,
    nodes: &Vec<usize>,
    bound: usize,
    prefix: &Vec<char>,
    out: &mut Vec<ImportInfo>,
)
    requires
        bound < tree.nodes@.len(),
        forall|k: int| 0 <= k < nodes@.len() ==> bound < #[trigger] nodes@[k] < tree.nodes@.len(),
    ensures
        import_views(final(out)@) == import_views(old(out)@) + spec_collect_list(
            tree.nodes@,
            idx(nodes@),
            bound as int,
            prefix@,
        ),
    decreases tree.nodes@.len() - bound, 0int,
{
    let ghost s = tree.nodes@;
    let ghost start = import_views(out@);
    let ghost all = idx(nodes@);
    let mut k: usize = 0;
    assert(all.take(0) =~= Seq::<int>::empty());
    assert(start + spec_collect_list(s, all.take(0), bound as int, prefix@) =~= start);
    while k < nodes.len()
        invariant
            s == tree.nodes@,
            all == idx(nodes@),
            bound < s.len(),
            forall|m: int| 0 <= m < nodes@.len() ==> bound < #[trigger] nodes@[m] < s.len(),
            k <= nodes.len(),
            import_views(out@) == start + spec_collect_list(s, all.take(k as int), bound as int, prefix@),
        decreases nodes.len() - k,
    {
        let ghost mid = import_views(out@);
        assert(all.take(k + 1).drop_last() =~= all.take(k as int));
        assert(all.take(k + 1).last() == nodes@[k as int] as int);
        collect_imports(tree, nodes[k], prefix, out);
        assert(spec_collect_list(s, all.take(k + 1), bound as int, prefix@) == spec_collect_list(
            s,
            all.take(k as int),
            bound as int,
            prefix@,
        ) + spec_collect_imports(s, nodes@[k as int] as int, prefix@));
        assert(import_views(out@) =~= start + spec_collect_list(s, all.take(k + 1), bound as int, prefix@));
        k += 1;
    }
    assert(all.take(nodes.len() as int) =~= all);
}

/// Appends the imports that the part of a `use` declaration rooted at `node` brings in,
/// each path under `prefix`.
pub fn collect_imports(tree: &SyntaxTree, node: usize, prefix: &Vec<char>, out: &mut Vec<ImportInfo>)
    requires
        node < tree.nodes@.len(),
    ensures
        import_views(final(out)@) == import_views(old(out)@) + spec_collect_imports(
            tree.nodes@,
            node as int,
            prefix@,
        ),
    decreases tree.nodes@.len() - node, 1int,
{
    let ghost s = tree.nodes@;
    let ghost before = import_views(out@);
    if is_path_leaf(tree, node) {
        push_text_import(tree, node, prefix, out);
    } else if tree.kind_is(node, "use_as_clause") {
        let path = text_or_empty_chars(tree, field_or_named_child(tree, node, "path", 0));
        let alias_chars = opt_node_text(tree, field_or_named_child(tree, node, "alias", 1));
        let alias = match alias_chars {
            Some(a) => Some(string_of(a.as_slice())),
            None => None,
        };
        push_import(out, &join_path_chars(prefix, &path), alias, false);
        assert(import_views(out@) =~= before + spec_collect_imports(s, node as int, prefix@));
    } else if tree.kind_is(node, "use_wildcard") {
        let path = text_or_empty_chars(tree, field_or_named_child(tree, node, "path", 0));
        let base = join_path_chars(prefix, &path);
        let star = vec!['*'];
        assert(star@ =~= seq!['*']);
        let glob = if base.len() == 0 {
            star
        } else {
            concat_dc(&base, &star)
        };
        push_import(out, &glob, None, true);
        assert(import_views(out@) =~= before + spec_collect_imports(s, node as int, prefix@));
    } else if tree.kind_is(node, "use_list") {
        let kids = tree.children_of(node, true);
        collect_from_list(tree, &kids, node, prefix, out);
    } else if tree.kind_is(node, "scoped_use_list") {
        let path = text_or_empty_chars(tree, field_or_named_child(tree, node, "path", 0));
        let scoped = join_path_chars(prefix, &path);
        let list = match tree.child_by_field_name(node, "list") {
            Some(l) => Some(l),
            None => tree.find_named_child(node, "use_list"),
        };
        match list {
            Some(l) => {
                proof {
                    lemma_field_child_after(s, node as int, "list"@);
                    lemma_named_child_of_kind_after(s, node as int, "use_list"@);
                }
                let kids = tree.children_of(l, true);
                collect_from_list(tree, &kids, node, &scoped, out);
            },
            None => {
                assert(import_views(out@) =~= before + spec_collect_imports(s, node as int, prefix@));
            },
        }
    } else {
        let kids = tree.children_of(node, true);
        if kids.len() == 0 {
            push_text_import(tree, node, prefix, out);
        } else {
            collect_from_list(tree, &kids, node, prefix, out);
        }
    }
}

/// The imports that the `use` declaration `node` brings in.
pub fn extract_import_info(tree: &SyntaxTree, node: usize) -> (r: Vec<ImportInfo>)
    requires
        node < tree.nodes@.len(),
    ensures
        import_views(r@) == spec_extract_import_info(tree.nodes@, node as int),
{
    let mut out: Vec<ImportInfo> = Vec::new();
    assert(import_views(out@) =~= Seq::<ImportView>::empty());
    match field_or_named_child(tree, node, "argument", 0) {
        Some(arg) => {
            collect_imports(tree, arg, &Vec::new(), &mut out);
            assert(import_views(out@) =~= spec_extract_import_info(tree.nodes@, node as int));
        },
        None => {},
    }
    out
}

/// The module that node `node` is declared in, given the module of its file: the names of
/// the enclosing `mod` items are appended to it.
pub fn module_path_for_node(tree: &SyntaxTree, node: usize, file_module: &Vec<char>) -> (r: Vec<char>)
    requires
        node < tree.nodes@.len(),
    ensures
        r@ == spec_module_path_for_node(tree.nodes@, node as int, file_module@),
{
    let ghost s = tree.nodes@;
    let anc = tree.ancestors_of(node);
    let ghost all = idx(anc@);
    let mut names: Vec<Vec<char>> = Vec::new();
    let mut k: usize = 0;
    assert(all.take(0) =~= Seq::<int>::empty());
    assert(views(names@) =~= mod_names(s, all.take(0)));
    while k < anc.len()
        invariant
            s == tree.nodes@,
            all == idx(anc@),
            all == ancestors(s, node as int),
            forall|m: int| 0 <= m < anc@.len() ==> #[trigger] anc@[m] < node,
            node < s.len(),
            k <= anc.len(),
            views(names@) == mod_names(s, all.take(k as int)),
        decreases anc.len() - k,
    {
        let a = anc[k];
        assert(all.take(k + 1).drop_last() =~= all.take(k as int));
        assert(all.take(k + 1).last() == a as int);
        if tree.kind_is(a, "mod_item") {
            let name_node = tree.child_by_field_name(a, "name");
            match opt_node_text(tree, name_node) {
                Some(name) => {
                    let ghost before = views(names@);
                    names.push(name);
                    assert(views(names@) =~= before.push(mod_name(s, a as int)->0));
                },
                None => {},
            }
        }
        k += 1;
    }
    assert(all.take(anc.len() as int) =~= all);
    if names.len() == 0 {
        file_module.clone()
    } else {
        concat_dc(file_module, &join_with_dcolon(&names))
    }
}

fn make_import_symbol(
    tree: &SyntaxTree,
    node: usize,
    import: &ImportInfo,
    file_node: &FileNode,
    module: &Vec<char>,
    id: SymbolId,
    Ghost(file_module): Ghost<Seq<char>>,
) -> (r: SymbolNode)
    requires
        node < tree.nodes@.len(),
        positions_bounded(tree.nodes@),
        module@ == spec_module_path_for_node(tree.nodes@, node as int, file_module),
    ensures
        r@ == import_symbol(tree.nodes@, node as int, import@, file_node.id, file_module, id.0),
{
    let raw = chars_of(import.import_path.as_str());
    let name = match &import.alias {
        Some(a) => chars_of(a.as_str()),
        None => raw.clone(),
    };
    let resolved = resolve_import_path_chars(module, &raw);
    let mut info = import.duplicate();
    info.resolved_path = Some(string_of(resolved.as_slice()));
    SymbolNode {
        id,
        file: file_node.id,
        name: string_of(name.as_slice()),
        qualified_name: string_of(make_qualified_name_chars(module, &name).as_slice()),
        module: Some(string_of(module.as_slice())),
        info: SymbolInfo::Import(info),
        span: extract_span(tree, node),
    }
}

/// The import symbols of a source file: one for each import of each `use` declaration, in
/// order, named within the module each declaration stands in (`module` for the file itself,
/// anchored at the crate root), with resolved paths and fresh identifiers.
pub fn rs_extract_imports(
    tree: &SyntaxTree,
    file_node: &FileNode,
    module: &str,
    ids: &mut IdGenerator,
) -> (r: Vec<SymbolNode>)
    requires
        positions_bounded(tree.nodes@),
    ensures
        symbol_views(r@) == import_symbols(
            tree.nodes@,
            nodes_of_kind(tree.nodes@, "use_declaration"@),
            file_node.id,
            spec_canonical_module_path(module@),
            old(ids).upcoming(),
        ),
        final(ids).upcoming() == nth_id(old(ids).upcoming(), r@.len() as int),
{
    let ghost s = tree.nodes@;
    let ghost first = ids.upcoming();
    let file_module = canonical_module_path_chars(&chars_of(module));
    let ghost fmod = file_module@;
    let decls = tree.nodes_of_kind("use_declaration");
    let ghost all = idx(decls@);
    let mut r: Vec<SymbolNode> = Vec::new();
    let mut k: usize = 0;
    assert(all.take(0) =~= Seq::<int>::empty());
    assert(symbol_views(r@) =~= import_symbols(s, all.take(0), file_node.id, fmod, first));
    while k < decls.len()
        invariant
            s == tree.nodes@,
            positions_bounded(s),
            all == idx(decls@),
            fmod == file_module@,
            forall|m: int| 0 <= m < decls@.len() ==> #[trigger] decls@[m] < s.len(),
            k <= decls.len(),
            symbol_views(r@) == import_symbols(s, all.take(k as int), file_node.id, fmod, first),
            ids.upcoming() == nth_id(first, r@.len() as int),
        decreases decls.len() - k,
    {
        let node = decls[k];
        assert(all.take(k + 1).drop_last() =~= all.take(k as int));
        assert(all.take(k + 1).last() == node as int);
        let effective = module_path_for_node(tree, node, &file_module);
        let imports = extract_import_info(tree, node);
        let ghost before = symbol_views(r@);
        let ghost base = r@.len() as int;
        let mut m: usize = 0;
        while m < imports.len()
            invariant
                s == tree.nodes@,
                positions_bounded(s),
                node < s.len(),
                effective@ == spec_module_path_for_node(s, node as int, fmod),
                import_views(imports@) == spec_extract_import_info(s, node as int),
                m <= imports.len(),
                base + m == r@.len(),
                symbol_views(r@) == before + Seq::new(
                    m as nat,
                    |j: int|
                        import_symbol(
                            s,
                            node as int,
                            import_views(imports@)[j],
                            file_node.id,
                            fmod,
                            nth_id(first, base + j),
                        ),
                ),
                ids.upcoming() == nth_id(first, r@.len() as int),
            decreases imports.len() - m,
        {
            let ghost mid = symbol_views(r@);
            let id: SymbolId = get_id(ids);
            proof {
                crate::ids::lemma_nth_id_step(first, r@.len() as int);
            }
            let sym = make_import_symbol(tree, node, &imports[m], file_node, &effective, id, Ghost(fmod));
            r.push(sym);
            m += 1;
            assert(symbol_views(r@) =~= mid.push(sym@));
            assert(symbol_views(r@) =~= before + Seq::new(
                m as nat,
                |j: int|
                    import_symbol(
                        s,
                        node as int,
                        import_views(imports@)[j],
                        file_node.id,
                        fmod,
                        nth_id(first, base + j),
                    ),
            ));
        }
        assert(symbol_views(r@) =~= import_symbols(s, all.take(k + 1), file_node.id, fmod, first));
        k += 1;
    }
    assert(all.take(decls.len() as int) =~= all);
    r
}

fn item_name_of(tree: &SyntaxTree, node: usize) -> (r: Vec<char>)
    requires
        node < tree.nodes@.len(),
    ensures
        r@ == item_name(tree.nodes@, node as int),
{
    match opt_node_text(tree, tree.child_by_field_name(node, "name")) {
        Some(t) => t,
        None => {
            let unknown = chars_of("unknown");
            unknown
        },
    }
}

fn parameter_texts_of(tree: &SyntaxTree, nodes: &Vec<usize>) -> (r: Vec<String>)
    requires
        forall|k: int| 0 <= k < nodes@.len() ==> #[trigger] nodes@[k] < tree.nodes@.len(),
    ensures
        strs(r@) == parameter_texts(tree.nodes@, idx(nodes@)),
{
    let ghost s = tree.nodes@;
    let ghost all = idx(nodes@);
    let mut r: Vec<String> = Vec::new();
    let mut k: usize = 0;
    assert(all.take(0) =~= Seq::<int>::empty());
    assert(strs(r@) =~= parameter_texts(s, all.take(0)));
    while k < nodes.len()
        invariant
            s == tree.nodes@,
            all == idx(nodes@),
            forall|m: int| 0 <= m < nodes@.len() ==> #[trigger] nodes@[m] < s.len(),
            k <= nodes.len(),
            strs(r@) == parameter_texts(s, all.take(k as int)),
        decreases nodes.len() - k,
    {
        let n = nodes[k];
        assert(all.take(k + 1).drop_last() =~= all.take(k as int));
        assert(all.take(k + 1).last() == n as int);
        if tree.kind_is(n, "parameter") || tree.kind_is(n, "self_parameter") {
            match tree.text(n) {
                Some(t) => {
                    let ghost before = strs(r@);
                    r.push(t);
                    assert(strs(r@) =~= before.push(text_of(s, n as int)->0));
                },
                None => {},
            }
        }
        k += 1;
    }
    assert(all.take(nodes.len() as int) =~= all);
    r
}

fn function_args_of(tree: &SyntaxTree, node: usize) -> (r: Option<Vec<String>>)
    requires
        node < tree.nodes@.len(),
    ensures
        crate::repo::opt_strs(r) == function_args(tree.nodes@, node as int),
{
    match tree.child_by_field_name(node, "parameters") {
        Some(p) => {
            let kids = tree.children_of(p, true);
            Some(parameter_texts_of(tree, &kids))
        },
        None => None,
    }
}

fn field_member_of(tree: &SyntaxTree, n: usize) -> (r: Option<Vec<char>>)
    requires
        n < tree.nodes@.len(),
    ensures
        match r {
            Some(m) => field_member(tree.nodes@, n as int) == Some(m@),
            None => field_member(tree.nodes@, n as int) is None,
        },
{
    if !tree.kind_is(n, "field_declaration") {
        return None;
    }
    match opt_node_text(tree, tree.child_by_field_name(n, "name")) {
        Some(t) => Some(t),
        None => opt_node_text(tree, tree.child_by_field_name(n, "type")),
    }
}

fn struct_members_of(tree: &SyntaxTree, node: usize) -> (r: Vec<String>)
    requires
        node < tree.nodes@.len(),
    ensures
        strs(r@) == struct_members(tree.nodes@, node as int),
{
    let ghost s = tree.nodes@;
    let body = match tree.child_by_field_name(node, "body") {
        Some(b) => Some(b),
        None => match tree.find_named_child(node, "field_declaration_list") {
            Some(b) => Some(b),
            None => tree.find_named_child(node, "ordered_field_declaration_list"),
        },
    };
    let mut r: Vec<String> = Vec::new();
    let b = match body {
        Some(b) => b,
        None => {
            assert(strs(r@) =~= Seq::<Seq<char>>::empty());
            return r;
        },
    };
    let tuple = tree.kind_is(b, "ordered_field_declaration_list");
    let kids = tree.children_of(b, true);
    let ghost all = idx(kids@);
    let mut k: usize = 0;
    assert(all.take(0) =~= Seq::<int>::empty());
    assert(strs(r@) =~= tuple_members(s, all.take(0)));
    assert(strs(r@) =~= field_members(s, all.take(0)));
    while k < kids.len()
        invariant
            s == tree.nodes@,
            all == idx(kids@),
            forall|m: int| 0 <= m < kids@.len() ==> #[trigger] kids@[m] < s.len(),
            k <= kids.len(),
            tuple ==> strs(r@) == tuple_members(s, all.take(k as int)),
            !tuple ==> strs(r@) == field_members(s, all.take(k as int)),
        decreases kids.len() - k,
    {
        let n = kids[k];
        assert(all.take(k + 1).drop_last() =~= all.take(k as int));
        assert(all.take(k + 1).last() == n as int);
        let ghost before = strs(r@);
        if tuple {
            if !tree.kind_is(n, "attribute_item") && !tree.kind_is(n, "visibility_modifier") {
                match tree.text(n) {
                    Some(t) => {
                        r.push(t);
                        assert(strs(r@) =~= before.push(text_of(s, n as int)->0));
                    },
                    None => {},
                }
            }
        } else {
            match field_member_of(tree, n) {
                Some(m) => {
                    r.push(string_of(m.as_slice()));
                    assert(strs(r@) =~= before.push(m@));
                },
                None => {},
            }
        }
        k += 1;
    }
    assert(all.take(kids.len() as int) =~= all);
    r
}

fn make_item_symbol(
    tree: &SyntaxTree,
    node: usize,
    info: SymbolInfo,
    file_node: &FileNode,
    module: Vec<char>,
    id: SymbolId,
    Ghost(file_module): Ghost<Seq<char>>,
) -> (r: SymbolNode)
    requires
        node < tree.nodes@.len(),
        positions_bounded(tree.nodes@),
        module@ == spec_module_path_for_node(tree.nodes@, node as int, file_module),
    ensures
        r@ == item_symbol(tree.nodes@, node as int, info@, file_node.id, file_module, id.0),
{
    let name = item_name_of(tree, node);
    SymbolNode {
        id,
        file: file_node.id,
        name: string_of(name.as_slice()),
        qualified_name: string_of(make_qualified_name_chars(&module, &name).as_slice()),
        module: Some(string_of(module.as_slice())),
        info,
        span: extract_span(tree, node),
    }
}

/// The function symbols of a source file: one for each function item, in order, with its
/// parameters, named within the module it stands in (`module` for the file itself, anchored
/// at the crate root), with fresh identifiers.
pub fn rs_extract_functions(
    tree: &SyntaxTree,
    file_node: &FileNode,
    module: &str,
    ids: &mut IdGenerator,
) -> (r: Vec<SymbolNode>)
    requires
        positions_bounded(tree.nodes@),
    ensures
        symbol_views(r@) == function_symbols(
            tree.nodes@,
            nodes_of_kind(tree.nodes@, "function_item"@),
            file_node.id,
            spec_canonical_module_path(module@),
            old(ids).upcoming(),
        ),
        final(ids).upcoming() == nth_id(old(ids).upcoming(), r@.len() as int),
{
    extract_items(tree, file_node, module, ids, true)
}

/// The struct symbols of a source file: one for each struct item, in order, with its
/// members, named within the module it stands in (`module` for the file itself, anchored at
/// the crate root), with fresh identifiers.
pub fn rs_extract_structs(
    tree: &SyntaxTree,
    file_node: &FileNode,
    module: &str,
    ids: &mut IdGenerator,
) -> (r: Vec<SymbolNode>)
    requires
        positions_bounded(tree.nodes@),
    ensures
        symbol_views(r@) == struct_symbols(
            tree.nodes@,
            nodes_of_kind(tree.nodes@, "struct_item"@),
            file_node.id,
            spec_canonical_module_path(module@),
            old(ids).upcoming(),
        ),
        final(ids).upcoming() == nth_id(old(ids).upcoming(), r@.len() as int),
{
    extract_items(tree, file_node, module, ids, false)
}

fn extract_items(
    tree: &SyntaxTree,
    file_node: &FileNode,
    module: &str,
    ids: &mut IdGenerator,
    functions: bool,
) -> (r: Vec<SymbolNode>)
    requires
        positions_bounded(tree.nodes@),
    ensures
        functions ==> symbol_views(r@) == function_symbols(
            tree.nodes@,
            nodes_of_kind(tree.nodes@, "function_item"@),
            file_node.id,
            spec_canonical_module_path(module@),
            old(ids).upcoming(),
        ),
        !functions ==> symbol_views(r@) == struct_symbols(
            tree.nodes@,
            nodes_of_kind(tree.nodes@, "struct_item"@),
            file_node.id,
            spec_canonical_module_path(module@),
            old(ids).upcoming(),
        ),
        final(ids).upcoming() == nth_id(old(ids).upcoming(), r@.len() as int),
{
    let ghost s = tree.nodes@;
    let ghost first = ids.upcoming();
    let file_module = canonical_module_path_chars(&chars_of(module));
    let ghost fmod = file_module@;
    let items = if functions {
        tree.nodes_of_kind("function_item")
    } else {
        tree.nodes_of_kind("struct_item")
    };
    let ghost all = idx(items@);
    let ghost expected = if functions {
        function_symbols(s, all, file_node.id, fmod, first)
    } else {
        struct_symbols(s, all, file_node.id, fmod, first)
    };
    let mut r: Vec<SymbolNode> = Vec::new();
    let mut k: usize = 0;
    assert(symbol_views(r@) =~= expected.take(0));
    while k < items.len()
        invariant
            s == tree.nodes@,
            positions_bounded(s),
            all == idx(items@),
            fmod == file_module@,
            expected.len() == items@.len(),
            expected == (if functions {
                function_symbols(s, all, file_node.id, fmod, first)
            } else {
                struct_symbols(s, all, file_node.id, fmod, first)
            }),
            forall|m: int| 0 <= m < items@.len() ==> #[trigger] items@[m] < s.len(),
            k <= items.len(),
            r@.len() == k,
            symbol_views(r@) == expected.take(k as int),
            ids.upcoming() == nth_id(first, k as int),
        decreases items.len() - k,
    {
        let node = items[k];
        let effective = module_path_for_node(tree, node, &file_module);
        let info = if functions {
            SymbolInfo::Function(FunctionInfo { args: function_args_of(tree, node) })
        } else {
            SymbolInfo::Struct(StructInfo { members: struct_members_of(tree, node) })
        };
        let id: SymbolId = get_id(ids);
        proof {
            crate::ids::lemma_nth_id_step(first, k as int);
        }
        let ghost before = symbol_views(r@);
        let sym = make_item_symbol(tree, node, info, file_node, effective, id, Ghost(fmod));
        r.push(sym);
        assert(symbol_views(r@) =~= before.push(sym@));
        assert(expected.take(k + 1) =~= expected.take(k as int).push(expected[k as int]));
        k += 1;
    }
    assert(expected.take(items.len() as int) =~= expected);
    r
}

/// The child found under a field lies after its parent.
pub proof fn lemma_field_child_after(s: Seq<SyntaxNode>, a: int, field: Seq<char>)
    requires
        0 <= a < s.len(),
    ensures
        child_by_field(s, a, field) matches Some(c) ==> a < c < s.len(),
{
    lemma_children_after(s, a, a + 1, false);
    lemma_first_with_field_member(s, crate::syntax::children(s, a), field);
}

/// A named child of a given kind lies after its parent.
pub proof fn lemma_named_child_of_kind_after(s: Seq<SyntaxNode>, a: int, kind: Seq<char>)
    requires
        0 <= a < s.len(),
    ensures
        find_named_child(s, a, kind) matches Some(c) ==> a < c < s.len(),
{
    lemma_children_after(s, a, a + 1, true);
    lemma_first_of_kind_member(s, named_children(s, a), kind);
}

/// Every child found scanning from `j` lies at or after `j`, inside the node list.
pub proof fn lemma_children_after(s: Seq<SyntaxNode>, a: int, j: int, named: bool)
    ensures
        forall|k: int|
            0 <= k < children_from(s, a, j, named).len() ==> j <= #[trigger] children_from(
                s,
                a,
                j,
                named,
            )[k] < s.len(),
    decreases s.len() - j,
{
    if !(j < 0 || j >= s.len() || s[j].depth <= s[a].depth) {
        lemma_children_after(s, a, j + 1, named);
        let here: Seq<int> = if s[j].depth == s[a].depth + 1 && (!named || s[j].is_named) {
            seq![j]
        } else {
            Seq::empty()
        };
        let rest = children_from(s, a, j + 1, named);
        assert(children_from(s, a, j, named) == here + rest);
        assert forall|k: int| 0 <= k < (here + rest).len() implies j <= #[trigger] (here + rest)[k]
            < s.len() by {
            if k >= here.len() {
                assert((here + rest)[k] == rest[k - here.len()]);
            }
        }
    }
}

/// The node found by `first_with_field` is one of the candidates.
pub proof fn lemma_first_with_field_member(s: Seq<SyntaxNode>, nodes: Seq<int>, field: Seq<char>)
    ensures
        crate::syntax::first_with_field(s, nodes, field) matches Some(c) ==> nodes.contains(c),
    decreases nodes.len(),
{
    if nodes.len() > 0 {
        lemma_first_with_field_member(s, nodes.drop_first(), field);
        if let Some(c) = crate::syntax::first_with_field(s, nodes.drop_first(), field) {
            let k = choose|k: int| 0 <= k < nodes.drop_first().len() && nodes.drop_first()[k] == c;
            assert(nodes[k + 1] == c);
        }
    }
}

/// The node found by `first_of_kind` is one of the candidates.
pub proof fn lemma_first_of_kind_member(s: Seq<SyntaxNode>, nodes: Seq<int>, kind: Seq<char>)
    ensures
        crate::syntax::first_of_kind(s, nodes, kind) matches Some(c) ==> nodes.contains(c),
    decreases nodes.len(),
{
    if nodes.len() > 0 {
        lemma_first_of_kind_member(s, nodes.drop_first(), kind);
        if let Some(c) = crate::syntax::first_of_kind(s, nodes.drop_first(), kind) {
            let k = choose|k: int| 0 <= k < nodes.drop_first().len() && nodes.drop_first()[k] == c;
            assert(nodes[k + 1] == c);
        }
    }
}


/// The symbol belongs to the file, was declared in the file's module or a module inside it,
/// and its qualified name is its name within that module.
pub open spec fn well_named(v: SymbolView, file: FileId, file_module: Seq<char>) -> bool {
    &&& v.file == file
    &&& v.module matches Some(m)
    &&& has_prefix(m, file_module)
    &&& v.qualified_name == spec_make_qualified_name(m, v.name)
}

proof fn lemma_node_module_prefix(s: Seq<SyntaxNode>, node: int, file_module: Seq<char>)
    ensures
        has_prefix(spec_module_path_for_node(s, node, file_module), file_module),
{
    let m = spec_module_path_for_node(s, node, file_module);
    assert(m.subrange(0, file_module.len() as int) =~= file_module);
}

/// The symbols of `use` declarations are well named and numbered one after another.
pub proof fn lemma_import_symbols_named(
    s: Seq<SyntaxNode>,
    decls: Seq<int>,
    file: FileId,
    file_module: Seq<char>,
    first: u64,
)
    ensures
        forall|k: int|
            0 <= k < import_symbols(s, decls, file, file_module, first).len() ==> {
                let v = #[trigger] import_symbols(s, decls, file, file_module, first)[k];
                &&& well_named(v, file, file_module)
                &&& v.id == SymbolId(nth_id(first, k))
            },
    decreases decls.len(),
{
    if decls.len() > 0 {
        let before = import_symbols(s, decls.drop_last(), file, file_module, first);
        lemma_import_symbols_named(s, decls.drop_last(), file, file_module, first);
        lemma_node_module_prefix(s, decls.last(), file_module);
        let r = import_symbols(s, decls, file, file_module, first);
        assert forall|k: int| 0 <= k < r.len() implies {
            let v = #[trigger] r[k];
            &&& well_named(v, file, file_module)
            &&& v.id == SymbolId(nth_id(first, k))
        } by {
            if k < before.len() {
                assert(r[k] == before[k]);
            }
        }
    }
}

/// The symbols of function items are well named and numbered one after another.
pub proof fn lemma_function_symbols_named(
    s: Seq<SyntaxNode>,
    items: Seq<int>,
    file: FileId,
    file_module: Seq<char>,
    first: u64,
)
    ensures
        forall|k: int|
            0 <= k < function_symbols(s, items, file, file_module, first).len() ==> {
                let v = #[trigger] function_symbols(s, items, file, file_module, first)[k];
                &&& well_named(v, file, file_module)
                &&& v.id == SymbolId(nth_id(first, k))
            },
{
    assert forall|k: int| 0 <= k < items.len() implies well_named(
        #[trigger] function_symbols(s, items, file, file_module, first)[k],
        file,
        file_module,
    ) by {
        lemma_node_module_prefix(s, items[k], file_module);
    }
}

/// The symbols of struct items are well named and numbered one after another.
pub proof fn lemma_struct_symbols_named(
    s: Seq<SyntaxNode>,
    items: Seq<int>,
    file: FileId,
    file_module: Seq<char>,
    first: u64,
)
    ensures
        forall|k: int|
            0 <= k < struct_symbols(s, items, file, file_module, first).len() ==> {
                let v = #[trigger] struct_symbols(s, items, file, file_module, first)[k];
                &&& well_named(v, file, file_module)
                &&& v.id == SymbolId(nth_id(first, k))
            },
{
    assert forall|k: int| 0 <= k < items.len() implies well_named(
        #[trigger] struct_symbols(s, items, file, file_module, first)[k],
        file,
        file_module,
    ) by {
        lemma_node_module_prefix(s, items[k], file_module);
    }
}


/// Node `n` is a parameter (or a `self` parameter) with text.
pub open spec fn is_parameter_with_text(s: Seq<SyntaxNode>, n: int) -> bool {
    (s[n].kind@ == "parameter"@ || s[n].kind@ == "self_parameter"@) && text_of(s, n) is Some
}

/// The parameter texts are those of every parameter with text among the nodes, one each,
/// in the order of the nodes: no parameter is dropped, none is repeated, nothing else is
/// taken.
pub proof fn lemma_parameter_texts_are_all_parameters(s: Seq<SyntaxNode>, nodes: Seq<int>)
    ensures
        parameter_texts(s, nodes) == nodes.filter(|n: int| is_parameter_with_text(s, n)).map_values(
            |n: int| text_of(s, n)->0,
        ),
        parameter_texts(s, nodes).len() == nodes.filter(|n: int| is_parameter_with_text(s, n)).len(),
    decreases nodes.len(),
{
    reveal(Seq::filter);
    let pred = |n: int| is_parameter_with_text(s, n);
    let text = |n: int| text_of(s, n)->0;
    if nodes.len() > 0 {
        lemma_parameter_texts_are_all_parameters(s, nodes.drop_last());
        let f0 = nodes.drop_last().filter(pred);
        if pred(nodes.last()) {
            assert(nodes.filter(pred) == f0.push(nodes.last()));
            assert(f0.push(nodes.last()).map_values(text) =~= f0.map_values(text).push(
                text(nodes.last()),
            ));
        } else {
            assert(nodes.filter(pred) == f0);
        }
    } else {
        assert(nodes.filter(pred) =~= Seq::<int>::empty());
        assert(parameter_texts(s, nodes) =~= nodes.filter(pred).map_values(text));
    }
}

/// A function's arguments, when it has a parameter list, are the texts of every parameter
/// (or `self` parameter) with text among the list's named children, in order.
pub proof fn lemma_function_args_are_all_parameters(s: Seq<SyntaxNode>, node: int)
    ensures
        function_args(s, node) matches Some(args) ==> ({
            let p = child_by_field(s, node, "parameters"@)->0;
            let params = named_children(s, p).filter(|n: int| is_parameter_with_text(s, n));
            &&& args.len() == params.len()
            &&& forall|k: int| 0 <= k < params.len() ==> args[k] == text_of(s, #[trigger] params[k])->0
        }),
{
    if child_by_field(s, node, "parameters"@) is Some {
        let p = child_by_field(s, node, "parameters"@)->0;
        lemma_parameter_texts_are_all_parameters(s, named_children(s, p));
    }
}

/// Every import symbol is resolved from the module it is declared in: its resolved path is
/// its import path resolved within its own module.
pub proof fn lemma_imports_resolved_in_own_module(
    s: Seq<SyntaxNode>,
    decls: Seq<int>,
    file: FileId,
    file_module: Seq<char>,
    first: u64,
)
    ensures
        forall|k: int|
            0 <= k < import_symbols(s, decls, file, file_module, first).len() ==> {
                let v = #[trigger] import_symbols(s, decls, file, file_module, first)[k];
                &&& v.module is Some
                &&& v.info is Import
                &&& v.info->Import_0.resolved_path == Some(
                    spec_resolve_import_path(v.module->0, v.info->Import_0.import_path),
                )
            },
    decreases decls.len(),
{
    if decls.len() > 0 {
        let before = import_symbols(s, decls.drop_last(), file, file_module, first);
        lemma_imports_resolved_in_own_module(s, decls.drop_last(), file, file_module, first);
        let r = import_symbols(s, decls, file, file_module, first);
        assert forall|k: int| 0 <= k < r.len() implies {
            let v = #[trigger] r[k];
            &&& v.module is Some
            &&& v.info is Import
            &&& v.info->Import_0.resolved_path == Some(
                spec_resolve_import_path(v.module->0, v.info->Import_0.import_path),
            )
        } by {
            if k < before.len() {
                assert(r[k] == before[k]);
            }
        }
    }
}

/// The span of node `n`: it starts where the node starts and ends where the node ends,
/// lines and columns counted from 1.
pub open spec fn spans_node(span: Span, s: Seq<SyntaxNode>, n: int) -> bool {
    &&& span.start_line == s[n].start.0 + 1
    &&& span.start_col == s[n].start.1 + 1
    &&& span.end_line == s[n].end.0 + 1
    &&& span.end_col == s[n].end.1 + 1
}

/// A function or struct symbol spans its item, from the item's first position to its last;
/// so an item that ends on a later line than it starts has a span that does too.
pub proof fn lemma_item_spans(s: Seq<SyntaxNode>, items: Seq<int>, file: FileId, file_module: Seq<char>, first: u64)
    requires
        positions_bounded(s),
        forall|k: int| 0 <= k < items.len() ==> 0 <= #[trigger] items[k] < s.len(),
    ensures
        forall|k: int|
            0 <= k < items.len() ==> spans_node(
                (#[trigger] function_symbols(s, items, file, file_module, first)[k]).span,
                s,
                items[k],
            ) && spans_node(struct_symbols(s, items, file, file_module, first)[k].span, s, items[k]),
        forall|k: int|
            0 <= k < items.len() && s[items[k]].end.0 > s[items[k]].start.0 ==> (#[trigger] function_symbols(
                s,
                items,
                file,
                file_module,
                first,
            )[k]).span.end_line > function_symbols(s, items, file, file_module, first)[k].span.start_line,
{
    assert forall|k: int| 0 <= k < items.len() implies spans_node(
        (#[trigger] function_symbols(s, items, file, file_module, first)[k]).span,
        s,
        items[k],
    ) && spans_node(struct_symbols(s, items, file, file_module, first)[k].span, s, items[k]) by {
        let n = items[k];
        assert(s[n].start.0 < usize::MAX);
    }
}

/// An import symbol spans the `use` declaration it comes from.
pub proof fn lemma_import_spans(
    s: Seq<SyntaxNode>,
    decls: Seq<int>,
    file: FileId,
    file_module: Seq<char>,
    first: u64,
)
    requires
        positions_bounded(s),
        forall|k: int| 0 <= k < decls.len() ==> 0 <= #[trigger] decls[k] < s.len(),
    ensures
        forall|k: int|
            0 <= k < import_symbols(s, decls, file, file_module, first).len() ==> exists|d: int|
                0 <= d < decls.len() && spans_node(
                    (#[trigger] import_symbols(s, decls, file, file_module, first)[k]).span,
                    s,
                    decls[d],
                ),
    decreases decls.len(),
{
    if decls.len() > 0 {
        let init = decls.drop_last();
        assert forall|k: int| 0 <= k < init.len() implies 0 <= #[trigger] init[k] < s.len() by {
            assert(init[k] == decls[k]);
        }
        let before = import_symbols(s, init, file, file_module, first);
        lemma_import_spans(s, init, file, file_module, first);
        let r = import_symbols(s, decls, file, file_module, first);
        let last = decls.len() - 1;
        assert(s[decls[last]].start.0 < usize::MAX);
        assert forall|k: int| 0 <= k < r.len() implies exists|d: int|
            0 <= d < decls.len() && spans_node((#[trigger] r[k]).span, s, decls[d]) by {
            if k < before.len() {
                assert(r[k] == before[k]);
                let d = choose|d: int| 0 <= d < init.len() && spans_node(before[k].span, s, init[d]);
                assert(init[d] == decls[d]);
            } else {
                assert(spans_node(r[k].span, s, decls[last]));
            }
        }
    }
}

} // verus!
