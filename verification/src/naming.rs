//! Module paths and qualified names: how symbols are named inside the crate graph.
use vstd::prelude::*;
use crate::paths::{
    components, cur_dir, file_stem, is_normal, is_normal_component, is_plain_name, join_slash,
    lemma_components_of_join, lemma_plain_name_rs, path_components, rs_ext, stem_of,
};
use crate::text::{
    chars_of, colon_free, concat_dc, lemma_join_dc_first, lemma_split_dc_word, count_repeated, dcolon, has_prefix, join_dc, join_with_dcolon,
    lemma_split_dc_nonempty, same_chars, split_dc, split_on_dcolon, starts_with_chars,
    string_of, strip_repeated, strip_repeated_prefix, views,
};

verus! {

/// `crate`
pub open spec fn kw_crate() -> Seq<char> {
    seq!['c', 'r', 'a', 't', 'e']
}

/// `self::`
pub open spec fn kw_self_sep() -> Seq<char> {
    seq!['s', 'e', 'l', 'f', ':', ':']
}

/// `super::`
pub open spec fn kw_super_sep() -> Seq<char> {
    seq!['s', 'u', 'p', 'e', 'r', ':', ':']
}

/// `std`, `core` and `alloc`, the roots that an import path may name outside the crate.
pub open spec fn is_external_root(segment: Seq<char>) -> bool {
    segment == seq!['s', 't', 'd'] || segment == seq!['c', 'o', 'r', 'e'] || segment == seq![
        'a',
        'l',
        'l',
        'o',
        'c',
    ]
}

/// `prefix::path`, leaving out the separator when either side is empty.
pub open spec fn spec_join_path(prefix: Seq<char>, path: Seq<char>) -> Seq<char> {
    if prefix.len() == 0 {
        path
    } else if path.len() == 0 {
        prefix
    } else {
        prefix + dcolon() + path
    }
}

/// A module path anchored at `crate`: empty becomes `crate`, a path already under `crate`
/// stays as it is, anything else is put under `crate::`.
pub open spec fn spec_canonical_module_path(path: Seq<char>) -> Seq<char> {
    if path.len() == 0 {
        kw_crate()
    } else if path == kw_crate() || has_prefix(path, kw_crate() + dcolon()) {
        path
    } else {
        kw_crate() + dcolon() + path
    }
}

/// The qualified name of `name` inside the module `module`.
pub open spec fn spec_make_qualified_name(module: Seq<char>, name: Seq<char>) -> Seq<char> {
    let anchored = spec_canonical_module_path(module);
    if name.len() == 0 {
        anchored
    } else {
        anchored + dcolon() + name
    }
}

/// The absolute path that an import written in `current_module` refers to.
pub open spec fn spec_resolve_import_path(current_module: Seq<char>, raw: Seq<char>) -> Seq<char> {
    if has_prefix(raw, kw_crate() + dcolon()) {
        raw
    } else if has_prefix(raw, kw_self_sep()) {
        spec_canonical_module_path(current_module) + dcolon() + strip_repeated(raw, kw_self_sep())
    } else if has_prefix(raw, kw_super_sep()) {
        let ups = count_repeated(raw, kw_super_sep());
        let remainder = strip_repeated(raw, kw_super_sep());
        let parts = split_dc(spec_canonical_module_path(current_module));
        let pops = if ups < parts.len() - 1 { ups as int } else { parts.len() - 1 };
        let kept = join_dc(parts.subrange(0, parts.len() - pops));
        if remainder.len() == 0 {
            kept
        } else {
            kept + dcolon() + remainder
        }
    } else if is_external_root(split_dc(raw)[0]) {
        raw
    } else {
        kw_crate() + dcolon() + raw
    }
}

/// The components of a file path with the last one cut down to its stem, as
/// `Path::with_extension("")` followed by `Path::components` gives them.
pub open spec fn stemmed_components(comps: Seq<Seq<char>>) -> Seq<Seq<char>> {
    if comps.len() > 0 && is_normal(comps.last()) {
        let stem = file_stem(comps.last());
        if stem == cur_dir() && comps.len() > 1 {
            comps.drop_last()
        } else {
            comps.drop_last().push(stem)
        }
    } else {
        comps
    }
}

/// `src`
pub open spec fn kw_src() -> Seq<char> {
    seq!['s', 'r', 'c']
}

/// File stems that stand for their directory's module: `mod`, `lib` and `main`.
pub open spec fn is_entry_stem(stem: Seq<char>) -> bool {
    stem == seq!['m', 'o', 'd'] || stem == seq!['l', 'i', 'b'] || stem == seq!['m', 'a', 'i', 'n']
}

/// The module path of a source file given by its path inside the repository: the path
/// without extension, without a leading `src` and without a trailing `mod`, `lib` or `main`,
/// its components joined with `::` under `crate`.
pub open spec fn spec_module_path_for_file(path: Seq<char>) -> Seq<char> {
    let parts = stemmed_components(components(path));
    let parts = if parts.len() > 0 && parts[0] == kw_src() {
        parts.drop_first()
    } else {
        parts
    };
    let parts = if parts.len() > 0 && is_entry_stem(parts.last()) {
        parts.drop_last()
    } else {
        parts
    };
    if parts.len() == 0 {
        kw_crate()
    } else {
        kw_crate() + dcolon() + join_dc(parts)
    }
}

fn crate_chars() -> (v: Vec<char>)
    ensures
        v@ == kw_crate(),
{
    let v = vec!['c', 'r', 'a', 't', 'e'];
    assert(v@ =~= kw_crate());
    v
}

fn is_external_root_chars(segment: &Vec<char>) -> (b: bool)
    ensures
        b == is_external_root(segment@),
{
    let std_root = vec!['s', 't', 'd'];
    let core_root = vec!['c', 'o', 'r', 'e'];
    let alloc_root = vec!['a', 'l', 'l', 'o', 'c'];
    assert(std_root@ =~= seq!['s', 't', 'd']);
    assert(core_root@ =~= seq!['c', 'o', 'r', 'e']);
    assert(alloc_root@ =~= seq!['a', 'l', 'l', 'o', 'c']);
    same_chars(segment, &std_root) || same_chars(segment, &core_root) || same_chars(
        segment,
        &alloc_root,
    )
}

pub(crate) fn join_path_chars(prefix: &Vec<char>, path: &Vec<char>) -> (r: Vec<char>)
    ensures
        r@ == spec_join_path(prefix@, path@),
{
    if prefix.len() == 0 {
        path.clone()
    } else if path.len() == 0 {
        prefix.clone()
    } else {
        concat_dc(prefix, path)
    }
}

/// Joins a path prefix and a path with `::`; an empty side contributes nothing.
pub fn join_path(prefix: &str, path: &str) -> (r: String)
    ensures
        r@ == spec_join_path(prefix@, path@),
{
    string_of(join_path_chars(&chars_of(prefix), &chars_of(path)).as_slice())
}

pub(crate) fn canonical_module_path_chars(path: &Vec<char>) -> (r: Vec<char>)
    ensures
        r@ == spec_canonical_module_path(path@),
{
    let root = crate_chars();
    if path.len() == 0 {
        return root;
    }
    let mut root_sep = root.clone();
    root_sep.push(':');
    root_sep.push(':');
    assert(root_sep@ =~= kw_crate() + dcolon());
    if same_chars(path, &root) || starts_with_chars(path, &root_sep) {
        path.clone()
    } else {
        concat_dc(&root, path)
    }
}

/// The module path anchored at the crate root.
pub fn canonical_module_path(path: &str) -> (r: String)
    ensures
        r@ == spec_canonical_module_path(path@),
{
    string_of(canonical_module_path_chars(&chars_of(path)).as_slice())
}

pub(crate) fn make_qualified_name_chars(module: &Vec<char>, name: &Vec<char>) -> (r: Vec<char>)
    ensures
        r@ == spec_make_qualified_name(module@, name@),
{
    let anchored = canonical_module_path_chars(module);
    if name.len() == 0 {
        anchored
    } else {
        concat_dc(&anchored, name)
    }
}

/// The qualified name of `name` declared in `module`.
pub fn make_qualified_name(module: &str, name: &str) -> (r: String)
    ensures
        r@ == spec_make_qualified_name(module@, name@),
{
    string_of(make_qualified_name_chars(&chars_of(module), &chars_of(name)).as_slice())
}

pub(crate) fn resolve_import_path_chars(current_module: &Vec<char>, raw: &Vec<char>) -> (r: Vec<char>)
    ensures
        r@ == spec_resolve_import_path(current_module@, raw@),
{
    let root = crate_chars();
    let mut root_sep = root.clone();
    root_sep.push(':');
    root_sep.push(':');
    assert(root_sep@ =~= kw_crate() + dcolon());
    if starts_with_chars(raw, &root_sep) {
        return raw.clone();
    }
    let self_sep = vec!['s', 'e', 'l', 'f', ':', ':'];
    assert(self_sep@ =~= kw_self_sep());
    if starts_with_chars(raw, &self_sep) {
        let (rest, _) = strip_repeated_prefix(raw, &self_sep);
        return concat_dc(&canonical_module_path_chars(current_module), &rest);
    }
    let super_sep = vec!['s', 'u', 'p', 'e', 'r', ':', ':'];
    assert(super_sep@ =~= kw_super_sep());
    if starts_with_chars(raw, &super_sep) {
        let (remainder, ups) = strip_repeated_prefix(raw, &super_sep);
        let mut parts = split_on_dcolon(&canonical_module_path_chars(current_module));
        proof {
            lemma_split_dc_nonempty(spec_canonical_module_path(current_module@));
        }
        let ghost all = views(parts@);
        let max_pops = parts.len() - 1;
        let pops = if ups < max_pops { ups } else { max_pops };
        let keep = parts.len() - pops;
        parts.truncate(keep);
        assert(views(parts@) =~= all.subrange(0, keep as int));
        let kept = join_with_dcolon(&parts);
        if remainder.len() == 0 {
            return kept;
        }
        return concat_dc(&kept, &remainder);
    }
    let segments = split_on_dcolon(raw);
    proof {
        lemma_split_dc_nonempty(raw@);
    }
    if is_external_root_chars(&segments[0]) {
        raw.clone()
    } else {
        concat_dc(&root, raw)
    }
}

/// Resolves an import path written inside `current_module` to an absolute path:
/// `crate::` paths stay, `self::` and `super::` are taken relative to the module (never
/// above the crate root), `std`, `core` and `alloc` paths stay, and any other path is put
/// under `crate::`.
pub fn resolve_import_path(current_module: &str, raw_import_path: &str) -> (r: String)
    ensures
        r@ == spec_resolve_import_path(current_module@, raw_import_path@),
{
    string_of(
        resolve_import_path_chars(&chars_of(current_module), &chars_of(raw_import_path)).as_slice(),
    )
}

/// The module path that a source file at `path` (relative to the repository root) defines.
pub fn module_path_for_file(path: &str) -> (r: String)
    ensures
        r@ == spec_module_path_for_file(path@),
{
    let mut parts = path_components(&chars_of(path));
    let ghost comps = views(parts@);
    let n = parts.len();
    if n > 0 && is_normal_component(&parts[n - 1]) {
        let stem = stem_of(&parts[n - 1]);
        parts.pop();
        assert(views(parts@) =~= comps.drop_last());
        let dot = vec!['.'];
        assert(dot@ =~= cur_dir());
        if !(same_chars(&stem, &dot) && n > 1) {
            let ghost before = views(parts@);
            parts.push(stem);
            assert(views(parts@) =~= before.push(file_stem(comps.last())));
        }
    }
    assert(views(parts@) == stemmed_components(comps));
    let src = vec!['s', 'r', 'c'];
    assert(src@ =~= kw_src());
    if parts.len() > 0 && same_chars(&parts[0], &src) {
        let ghost before = views(parts@);
        parts.remove(0);
        assert(views(parts@) =~= before.drop_first());
    }
    let m = parts.len();
    if m > 0 {
        let mod_stem = vec!['m', 'o', 'd'];
        let lib_stem = vec!['l', 'i', 'b'];
        let main_stem = vec!['m', 'a', 'i', 'n'];
        assert(mod_stem@ =~= seq!['m', 'o', 'd']);
        assert(lib_stem@ =~= seq!['l', 'i', 'b']);
        assert(main_stem@ =~= seq!['m', 'a', 'i', 'n']);
        if same_chars(&parts[m - 1], &mod_stem) || same_chars(&parts[m - 1], &lib_stem)
            || same_chars(&parts[m - 1], &main_stem) {
            let ghost before = views(parts@);
            parts.pop();
            assert(views(parts@) =~= before.drop_last());
        }
    }
    let root = crate_chars();
    if parts.len() == 0 {
        string_of(root.as_slice())
    } else {
        string_of(concat_dc(&root, &join_with_dcolon(&parts)).as_slice())
    }
}


/// The path is the crate root or lies under it.
pub open spec fn is_anchored(path: Seq<char>) -> bool {
    path == kw_crate() || has_prefix(path, kw_crate() + dcolon())
}

proof fn lemma_prefix_extends(s: Seq<char>, p: Seq<char>, t: Seq<char>)
    requires
        has_prefix(s, p),
    ensures
        has_prefix(s + t, p),
{
    assert((s + t).subrange(0, p.len() as int) =~= s.subrange(0, p.len() as int));
}

/// Anchoring a module path at the crate root gives the crate root or a path under it, and
/// anchoring again changes nothing.
pub proof fn lemma_canonical_module_path(path: Seq<char>)
    ensures
        is_anchored(spec_canonical_module_path(path)),
        spec_canonical_module_path(spec_canonical_module_path(path)) == spec_canonical_module_path(
            path,
        ),
{
    let root_sep = kw_crate() + dcolon();
    if !(path.len() == 0 || path == kw_crate() || has_prefix(path, root_sep)) {
        assert((root_sep + path).subrange(0, root_sep.len() as int) =~= root_sep);
    }
}

/// A qualified name lies under the crate root, and it is the same whether its module path
/// was anchored before or not.
pub proof fn lemma_qualified_name_anchored(module: Seq<char>, name: Seq<char>)
    ensures
        is_anchored(spec_make_qualified_name(module, name)),
        spec_make_qualified_name(spec_canonical_module_path(module), name)
            == spec_make_qualified_name(module, name),
        name.len() > 0 ==> spec_make_qualified_name(module, name) == spec_canonical_module_path(
            module,
        ) + dcolon() + name,
{
    lemma_canonical_module_path(module);
    let anchored = spec_canonical_module_path(module);
    if name.len() > 0 {
        if anchored == kw_crate() {
            assert((anchored + dcolon() + name).subrange(0, 7) =~= kw_crate() + dcolon());
        } else {
            lemma_prefix_extends(anchored, kw_crate() + dcolon(), dcolon() + name);
            assert(anchored + dcolon() + name =~= anchored + (dcolon() + name));
        }
    }
}

/// The module path of a source file is the crate root or lies under it, and anchoring it
/// changes nothing.
pub proof fn lemma_module_path_for_file_anchored(path: Seq<char>)
    ensures
        is_anchored(spec_module_path_for_file(path)),
        spec_canonical_module_path(spec_module_path_for_file(path)) == spec_module_path_for_file(
            path,
        ),
{
    let m = spec_module_path_for_file(path);
    if m != kw_crate() {
        let rest = m.subrange(7, m.len() as int);
        assert(m.subrange(0, 7) =~= kw_crate() + dcolon());
    }
}


/// An import into `std`, `core` or `alloc`, written without `crate::`, `self::` or `super::`.
pub open spec fn is_external_import(raw: Seq<char>) -> bool {
    &&& !has_prefix(raw, kw_crate() + dcolon())
    &&& !has_prefix(raw, kw_self_sep())
    &&& !has_prefix(raw, kw_super_sep())
    &&& is_external_root(split_dc(raw)[0])
}

proof fn lemma_anchored_extends(p: Seq<char>, t: Seq<char>)
    requires
        is_anchored(p),
    ensures
        is_anchored(p + dcolon() + t),
{
    let root_sep = kw_crate() + dcolon();
    if p == kw_crate() {
        assert((p + dcolon() + t).subrange(0, 7) =~= root_sep);
    } else {
        lemma_prefix_extends(p, root_sep, dcolon() + t);
        assert(p + dcolon() + t =~= p + (dcolon() + t));
    }
}

proof fn lemma_anchored_first_piece(p: Seq<char>)
    requires
        is_anchored(p),
    ensures
        split_dc(p)[0] == kw_crate(),
{
    assert(colon_free(kw_crate()));
    if p == kw_crate() {
        lemma_split_dc_word(kw_crate(), Seq::empty());
    } else {
        let t = p.subrange(7, p.len() as int);
        assert(p =~= kw_crate() + dcolon() + t);
        lemma_split_dc_word(kw_crate(), t);
    }
}

/// Import resolution: an import into `std`, `core` or `alloc` stays as written, as does one
/// already under `crate::`; every other import resolves to a path under the crate root.
pub proof fn lemma_resolve_import_path_anchored(current_module: Seq<char>, raw: Seq<char>)
    ensures
        is_external_import(raw) ==> spec_resolve_import_path(current_module, raw) == raw,
        has_prefix(raw, kw_crate() + dcolon()) ==> spec_resolve_import_path(current_module, raw)
            == raw,
        !is_external_import(raw) ==> is_anchored(spec_resolve_import_path(current_module, raw)),
{
    let root_sep = kw_crate() + dcolon();
    let canon = spec_canonical_module_path(current_module);
    lemma_canonical_module_path(current_module);
    if has_prefix(raw, root_sep) {
    } else if has_prefix(raw, kw_self_sep()) {
        lemma_anchored_extends(canon, strip_repeated(raw, kw_self_sep()));
    } else if has_prefix(raw, kw_super_sep()) {
        let ups = count_repeated(raw, kw_super_sep());
        let remainder = strip_repeated(raw, kw_super_sep());
        let parts = split_dc(canon);
        lemma_split_dc_nonempty(canon);
        lemma_anchored_first_piece(canon);
        let pops = if ups < parts.len() - 1 {
            ups as int
        } else {
            parts.len() - 1
        };
        let q = parts.subrange(0, parts.len() - pops);
        assert(q[0] == kw_crate());
        let kept = join_dc(q);
        if q.len() >= 2 {
            lemma_join_dc_first(q);
        } else {
            assert(kept == q[0]);
        }
        assert(is_anchored(kept));
        if remainder.len() > 0 {
            lemma_anchored_extends(kept, remainder);
        }
    } else if !is_external_root(split_dc(raw)[0]) {
        assert((root_sep + raw).subrange(0, 7) =~= root_sep);
    }
}


/// A `mod.rs`, `lib.rs` or `main.rs` file names the module of its directory: for a relative
/// directory path of plain names whose last name is not `mod`, `lib` or `main`, the file
/// `dir/mod.rs` (or `dir/lib.rs`, `dir/main.rs`) has the module path of the file `dir.rs`.
pub proof fn lemma_entry_file_names_directory(names: Seq<Seq<char>>, stem: Seq<char>)
    requires
        names.len() > 0,
        forall|i: int| 0 <= i < names.len() ==> is_plain_name(#[trigger] names[i]),
        !is_entry_stem(names.last()),
        is_entry_stem(stem),
    ensures
        spec_module_path_for_file(join_slash(names) + seq!['/'] + stem + rs_ext())
            == spec_module_path_for_file(join_slash(names) + rs_ext()),
{
    let dir = join_slash(names);
    let last = names.last();
    assert(is_plain_name(stem)) by {
        assert forall|j: int| 0 <= j < stem.len() implies #[trigger] stem[j] != '/' && stem[j]
            != '.' by {
            if stem == seq!['m', 'o', 'd'] {
                assert(stem[j] == seq!['m', 'o', 'd'][j]);
            } else if stem == seq!['l', 'i', 'b'] {
                assert(stem[j] == seq!['l', 'i', 'b'][j]);
            } else {
                assert(stem[j] == seq!['m', 'a', 'i', 'n'][j]);
            }
        }
    }
    lemma_plain_name_rs(stem);
    lemma_plain_name_rs(last);
    let w = stem + rs_ext();
    let cl = names.push(w);
    let cr = names.drop_last().push(last + rs_ext());
    assert forall|i: int| 0 <= i < names.len() implies crate::paths::is_kept_piece(
        #[trigger] names[i],
    ) by {
        lemma_plain_name_rs(names[i]);
    }
    assert forall|k: int| 0 <= k < cl.len() implies crate::paths::is_kept_piece(#[trigger] cl[k])
        || (k == 0 && (cl[k] == crate::paths::root_dir() || cl[k] == cur_dir())) by {
        if k < names.len() {
            assert(cl[k] == names[k]);
        }
    }
    assert forall|k: int| 0 <= k < cr.len() implies crate::paths::is_kept_piece(#[trigger] cr[k])
        || (k == 0 && (cr[k] == crate::paths::root_dir() || cr[k] == cur_dir())) by {
        if k < names.len() - 1 {
            assert(cr[k] == names[k]);
        }
    }
    lemma_components_of_join(cl);
    lemma_components_of_join(cr);
    assert(cl.drop_last() =~= names);
    assert(join_slash(cl) == dir + seq!['/'] + w);
    assert(dir + seq!['/'] + stem + rs_ext() =~= dir + seq!['/'] + w);
    if names.len() == 1 {
        assert(join_slash(cr) == cr[0]);
        assert(dir == names[0]);
    } else {
        assert(cr.drop_last() =~= names.drop_last());
        assert(join_slash(cr) =~= join_slash(names.drop_last()) + seq!['/'] + (last + rs_ext()));
    }
    assert(join_slash(cr) =~= dir + rs_ext());
    // Both paths reach the same parts once their stems are taken.
    assert(stemmed_components(cl) =~= names.push(stem));
    assert(cr.drop_last().push(last) =~= names);
    assert(stemmed_components(cr) =~= names);
    let pl = stemmed_components(cl);
    let pr = stemmed_components(cr);
    if pr[0] == kw_src() {
        assert(pl[0] == kw_src());
        let ql = pl.drop_first();
        let qr = pr.drop_first();
        assert(ql.last() == stem);
        assert(ql.drop_last() =~= qr);
        if qr.len() > 0 {
            assert(qr.last() == last);
        }
    } else {
        assert(pl[0] != kw_src());
        assert(pl.drop_last() =~= pr);
    }
}

} // verus!
