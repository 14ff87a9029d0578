//! Symbol search over stored repositories: which symbols match a name, where they live,
//! in what order they are reported.
use vstd::prelude::*;
use crate::paths::{
    chars_order, compare_chars, compare_paths, components_order, components, file_name_of, flip,
    lemma_chars_order_total, lemma_path_order_total, path_order, path_starts_with,
    spec_file_name, spec_join, spec_starts_with, Order,
};
use crate::repo::{
    found_symbols, spec_symbol_file, spec_symbol_file_path, symbol_views, InfoView, Repo, Span,
    SymbolInfo, SymbolNode, SymbolView,
};
use crate::text::{chars_of, opt_str, string_of};

verus! {

/// Where stored repositories are written, one file per repository.
pub const OUTPUT_PATH: &'static str = "output";

/// Where a search looks.
#[derive(Debug, PartialEq, Eq)]
pub enum FindScope {
    /// Symbols whose file lies under this directory.
    Dir(String),
    /// The stored repository of this name only.
    Repo(String),
    /// Every stored repository.
    All,
}

/// A search for a symbol.
#[derive(Debug, PartialEq, Eq)]
pub struct FindQuery {
    pub symbol: String,
    pub scope: FindScope,
    pub list_mode: bool,
}

/// The scope a search gets from its options: a directory alone, or a repository alone, or
/// else everything.
pub open spec fn spec_scope_of(dir: Option<String>, repo: Option<String>) -> FindScope {
    match (dir, repo) {
        (Some(d), None) => FindScope::Dir(d),
        (None, Some(r)) => FindScope::Repo(r),
        _ => FindScope::All,
    }
}

impl FindQuery {
    /// A search built from its options: the symbol, the directory and repository options
    /// (at most one of which gives the scope), and whether full details are asked for.
    pub fn from_parts(symbol: String, dir: Option<String>, repo: Option<String>, list_mode: bool) -> (q: FindQuery)
        ensures
            q.symbol == symbol,
            q.scope == spec_scope_of(dir, repo),
            q.list_mode == list_mode,
    {
        let scope = match (dir, repo) {
            (Some(d), None) => FindScope::Dir(d),
            (None, Some(r)) => FindScope::Repo(r),
            (_, _) => FindScope::All,
        };
        FindQuery { symbol, scope, list_mode }
    }
}

/// Which stored repositories a search reads.
#[derive(Debug, PartialEq, Eq)]
pub enum RepoSource {
    /// The one stored at this path.
    One(String),
    /// Every one stored under the output directory.
    All,
}

/// The stored repositories that a search in `scope` reads: the named one for a repository
/// scope, all of them otherwise.
pub fn load_repos(scope: &FindScope) -> (r: RepoSource)
    ensures
        match scope {
            FindScope::Repo(name) => r matches RepoSource::One(p) && p@ == spec_join(OUTPUT_PATH@, name@),
            _ => r == RepoSource::All,
        },
{
    match scope {
        FindScope::Repo(name) => RepoSource::One(
            string_of(crate::paths::join_paths(&chars_of(OUTPUT_PATH), &chars_of(name.as_str())).as_slice()),
        ),
        _ => RepoSource::All,
    }
}

/// A stored repository together with whether its root path names a file.
pub struct LoadedRepo {
    pub repo: Repo,
    pub root_is_file: bool,
}

/// One reported symbol.
#[derive(Debug)]
pub struct SymbolSearchResult {
    pub name: String,
    pub qualified_name: String,
    pub kind: &'static str,
    pub path: String,
    pub file_name: Option<String>,
    pub module: Option<String>,
    pub span: Span,
    pub info: SymbolInfo,
}

/// The abstract value of a reported symbol.
pub struct ResultView {
    pub name: Seq<char>,
    pub qualified_name: Seq<char>,
    pub kind: Seq<char>,
    pub path: Seq<char>,
    pub file_name: Option<Seq<char>>,
    pub module: Option<Seq<char>>,
    pub span: Span,
    pub info: InfoView,
}

impl View for SymbolSearchResult {
    type V = ResultView;

    open spec fn view(&self) -> ResultView {
        ResultView {
            name: self.name@,
            qualified_name: self.qualified_name@,
            kind: self.kind@,
            path: self.path@,
            file_name: opt_str(self.file_name),
            module: opt_str(self.module),
            span: self.span,
            info: self.info@,
        }
    }
}

/// The word for a symbol's kind.
pub open spec fn spec_symbol_kind(info: InfoView) -> Seq<char> {
    match info {
        InfoView::Function(_) => "function"@,
        InfoView::Struct(_) => "struct"@,
        InfoView::Import(_) => "import"@,
    }
}

/// The report of a symbol found in the file at `path`, with the name of that file.
pub open spec fn result_of(path: Seq<char>, symbol: SymbolView) -> ResultView {
    ResultView {
        name: symbol.name,
        qualified_name: symbol.qualified_name,
        kind: spec_symbol_kind(symbol.info),
        path,
        file_name: spec_file_name(path),
        module: symbol.module,
        span: symbol.span,
        info: symbol.info,
    }
}

/// The word for a symbol's kind: `function`, `struct` or `import`.
pub fn symbol_kind(info: &SymbolInfo) -> (r: &'static str)
    ensures
        r@ == spec_symbol_kind(info@),
{
    match info {
        SymbolInfo::Function(_) => "function",
        SymbolInfo::Struct(_) => "struct",
        SymbolInfo::Import(_) => "import",
    }
}

impl SymbolSearchResult {
    /// The report of a symbol found in the file at `path`.
    pub fn new(path: String, symbol: SymbolNode) -> (r: SymbolSearchResult)
        ensures
            r@ == result_of(path@, symbol@),
    {
        let kind = symbol_kind(&symbol.info);
        let file_name = match file_name_of(&chars_of(path.as_str())) {
            Some(n) => Some(string_of(n.as_slice())),
            None => None,
        };
        SymbolSearchResult {
            name: symbol.name,
            qualified_name: symbol.qualified_name,
            kind,
            path,
            file_name,
            module: symbol.module,
            span: symbol.span,
            info: symbol.info,
        }
    }
}

/// A symbol found, with the path of its file.
pub struct MatchEntry {
    pub path: String,
    pub symbol: SymbolNode,
}

/// The abstract values of found symbols with their paths.
pub open spec fn entry_views(v: Seq<MatchEntry>) -> Seq<(Seq<char>, SymbolView)> {
    v.map_values(|e: MatchEntry| (e.path@, e.symbol@))
}

/// The symbols of one repository that match the query, each with the path of its file.
pub open spec fn repo_matches(lr: LoadedRepo, query: Seq<char>) -> Seq<(Seq<char>, SymbolView)> {
    found_symbols(lr.repo, lr.repo.symbols@, query).map_values(
        |v: SymbolView| (spec_symbol_file_path(lr.repo, v.id, lr.root_is_file)->0, v),
    )
}

/// The symbols of all the repositories that match the query, repository by repository.
pub open spec fn all_matches(repos: Seq<LoadedRepo>, query: Seq<char>) -> Seq<(Seq<char>, SymbolView)>
    decreases repos.len(),
{
    if repos.len() == 0 {
        Seq::empty()
    } else {
        all_matches(repos.drop_last(), query) + repo_matches(repos.last(), query)
    }
}

/// The path lies in the directory scope, when there is one.
pub open spec fn in_scope(path: Seq<char>, dir: Option<Seq<char>>) -> bool {
    match dir {
        Some(d) => spec_starts_with(path, d),
        None => true,
    }
}

/// The found symbols whose file lies in the directory scope, in order.
pub open spec fn scoped_matches(ms: Seq<(Seq<char>, SymbolView)>, dir: Option<Seq<char>>) -> Seq<(Seq<char>, SymbolView)>
    decreases ms.len(),
{
    if ms.len() == 0 {
        Seq::empty()
    } else {
        let before = scoped_matches(ms.drop_last(), dir);
        if in_scope(ms.last().0, dir) {
            before.push(ms.last())
        } else {
            before
        }
    }
}

/// Found symbols ordered by path, then qualified name, then start line, then start column.
pub open spec fn match_order(x: (Seq<char>, SymbolView), y: (Seq<char>, SymbolView)) -> Order {
    let by_path = path_order(x.0, y.0);
    let by_name = chars_order(x.1.qualified_name, y.1.qualified_name);
    if by_path != Order::Equal {
        by_path
    } else if by_name != Order::Equal {
        by_name
    } else if x.1.span.start_line < y.1.span.start_line {
        Order::Less
    } else if x.1.span.start_line > y.1.span.start_line {
        Order::Greater
    } else if x.1.span.start_col < y.1.span.start_col {
        Order::Less
    } else if x.1.span.start_col > y.1.span.start_col {
        Order::Greater
    } else {
        Order::Equal
    }
}

/// Where `x` goes in the ordered `s`: before the first entry that orders after it, from
/// position `i` on.
pub open spec fn insert_pos(s: Seq<(Seq<char>, SymbolView)>, x: (Seq<char>, SymbolView), i: int) -> int
    decreases s.len() - i,
{
    if i < 0 || i >= s.len() {
        s.len() as int
    } else if match_order(s[i], x) == Order::Greater {
        i
    } else {
        insert_pos(s, x, i + 1)
    }
}

/// `x` put into the ordered `s` after every entry that does not order after it.
pub open spec fn insert_sorted(s: Seq<(Seq<char>, SymbolView)>, x: (Seq<char>, SymbolView)) -> Seq<(Seq<char>, SymbolView)> {
    let p = insert_pos(s, x, 0);
    s.subrange(0, p) + seq![x] + s.subrange(p, s.len() as int)
}

/// The found symbols in report order: each in turn is put after every entry already placed
/// that does not order after it.
pub open spec fn sort_matches(s: Seq<(Seq<char>, SymbolView)>) -> Seq<(Seq<char>, SymbolView)>
    decreases s.len(),
{
    if s.len() == 0 {
        Seq::empty()
    } else {
        insert_sorted(sort_matches(s.drop_last()), s.last())
    }
}

/// The reports of the found symbols, in order.
pub open spec fn results_of(s: Seq<(Seq<char>, SymbolView)>) -> Seq<ResultView> {
    s.map_values(|m: (Seq<char>, SymbolView)| result_of(m.0, m.1))
}

/// The report of a search over the given repositories: the matching symbols of every
/// repository, those outside the directory scope left out, in report order.
pub open spec fn spec_find_in_repos(repos: Seq<LoadedRepo>, query: Seq<char>, dir: Option<Seq<char>>) -> Seq<ResultView> {
    results_of(sort_matches(scoped_matches(all_matches(repos, query), dir)))
}

/// The abstract values of reports.
pub open spec fn result_views(v: Seq<SymbolSearchResult>) -> Seq<ResultView> {
    v.map_values(|r: SymbolSearchResult| r@)
}

/// Takes the first element off a non-empty vector.
pub fn take_first<T>(v: &mut Vec<T>) -> (x: T)
    requires
        old(v)@.len() > 0,
    ensures
        x == old(v)@[0],
        final(v)@ == old(v)@.subrange(1, old(v)@.len() as int),
{
    let x = v.remove(0);
    assert(v@ =~= old(v)@.subrange(1, old(v)@.len() as int));
    x
}

/// Every symbol that `find_symbols` reports has a known file.
pub proof fn lemma_found_symbols_have_files(repo: Repo, symbols: Seq<SymbolNode>, query: Seq<char>)
    ensures
        forall|k: int|
            0 <= k < found_symbols(repo, symbols, query).len() ==> spec_symbol_file(
                repo,
                #[trigger] found_symbols(repo, symbols, query)[k].id,
            ) is Some,
    decreases symbols.len(),
{
    if symbols.len() > 0 {
        lemma_found_symbols_have_files(repo, symbols.drop_last(), query);
    }
}

/// The matching symbols of every repository, each with the path of its file, repository by
/// repository.
pub fn gather_matches(repos: &Vec<LoadedRepo>, query: &str) -> (r: Vec<MatchEntry>)
    ensures
        entry_views(r@) == all_matches(repos@, query@),
{
    let mut r: Vec<MatchEntry> = Vec::new();
    let mut i: usize = 0;
    assert(repos@.take(0) =~= Seq::<LoadedRepo>::empty());
    assert(entry_views(r@) =~= all_matches(repos@.take(0), query@));
    while i < repos.len()
        invariant
            i <= repos.len(),
            entry_views(r@) == all_matches(repos@.take(i as int), query@),
        decreases repos.len() - i,
    {
        let lr = &repos[i];
        assert(repos@.take(i + 1).drop_last() =~= repos@.take(i as int));
        let found = lr.repo.find_symbols(query);
        let ghost expected = repo_matches(*lr, query@);
        let ghost before = entry_views(r@);
        proof {
            lemma_found_symbols_have_files(lr.repo, lr.repo.symbols@, query@);
        }
        let mut found = found;
        let nfound = found.len();
        let mut k: usize = 0;
        let ghost fv = symbol_views(found@);
        assert(fv.len() == nfound);
        assert(expected.take(0) =~= Seq::<(Seq<char>, SymbolView)>::empty());
        assert(entry_views(r@) =~= before + expected.take(0));
        while found.len() > 0
            invariant
                fv == found_symbols(lr.repo, lr.repo.symbols@, query@),
                expected == repo_matches(*lr, query@),
                k + found@.len() == fv.len(),
                fv.len() <= usize::MAX,
                symbol_views(found@) == fv.subrange(k as int, fv.len() as int),
                forall|m: int| 0 <= m < fv.len() ==> spec_symbol_file(lr.repo, #[trigger] fv[m].id) is Some,
                entry_views(r@) == before + expected.take(k as int),
            decreases found@.len(),
        {
            let ghost old_in = found@;
            let symbol = take_first(&mut found);
            assert(symbol_views(old_in)[0] == symbol@);
            assert(symbol@ == fv[k as int]);
            assert(symbol_views(found@) =~= symbol_views(old_in).subrange(1, old_in.len() as int));
            assert(symbol_views(found@) =~= fv.subrange(k + 1, fv.len() as int));
            match lr.repo.resolve_symbol_file_path(symbol.id, lr.root_is_file) {
                Some(path) => {
                    let ghost mid = entry_views(r@);
                    r.push(MatchEntry { path, symbol });
                    assert(entry_views(r@) =~= mid.push(expected[k as int]));
                    assert(expected.take(k + 1) =~= expected.take(k as int).push(expected[k as int]));
                },
                None => {
                    assert(false);
                },
            }
            k += 1;
        }
        assert(expected.take(k as int) =~= expected);
        i += 1;
    }
    assert(repos@.take(repos.len() as int) =~= repos@);
    r
}

/// The entries whose path lies under `dir`, in order; all of them when there is no `dir`.
pub fn retain_in_scope(entries: Vec<MatchEntry>, dir: Option<&str>) -> (r: Vec<MatchEntry>)
    ensures
        entry_views(r@) == scoped_matches(entry_views(entries@), match dir {
            Some(d) => Some(d@),
            None => None,
        }),
{
    let ghost d = match dir {
        Some(d) => Some(d@),
        None => None::<Seq<char>>,
    };
    let ghost all = entry_views(entries@);
    let n = entries.len();
    assert(all.len() == n);
    let dir_chars = match dir {
        Some(d) => Some(chars_of(d)),
        None => None,
    };
    let mut input = entries;
    let mut r: Vec<MatchEntry> = Vec::new();
    let mut k: usize = 0;
    assert(all.take(0) =~= Seq::<(Seq<char>, SymbolView)>::empty());
    assert(all.subrange(0, all.len() as int) =~= all);
    while input.len() > 0
        invariant
            k + input@.len() == all.len(),
            all.len() <= usize::MAX,
            entry_views(input@) == all.subrange(k as int, all.len() as int),
            entry_views(r@) == scoped_matches(all.take(k as int), d),
            match dir_chars {
                Some(c) => d == Some(c@),
                None => d is None,
            },
        decreases input@.len(),
    {
        let ghost old_in = input@;
        let e = take_first(&mut input);
        assert(entry_views(old_in)[0] == (e.path@, e.symbol@));
        assert(entry_views(input@) =~= entry_views(old_in).subrange(1, old_in.len() as int));
        assert(entry_views(input@) =~= all.subrange(k + 1, all.len() as int));
        assert((e.path@, e.symbol@) == all[k as int]);
        assert(all.take(k + 1).drop_last() =~= all.take(k as int));
        let keep = match &dir_chars {
            Some(c) => path_starts_with(&chars_of(e.path.as_str()), c),
            None => true,
        };
        if keep {
            let ghost mid = entry_views(r@);
            r.push(e);
            assert(entry_views(r@) =~= mid.push(all[k as int]));
        }
        k += 1;
    }
    assert(all.take(k as int) =~= all);
    r
}

/// Compares two found symbols in report order.
pub fn compare_entries(a: &MatchEntry, b: &MatchEntry) -> (r: Order)
    ensures
        r == match_order((a.path@, a.symbol@), (b.path@, b.symbol@)),
{
    let by_path = compare_paths(&chars_of(a.path.as_str()), &chars_of(b.path.as_str()));
    if by_path != Order::Equal {
        return by_path;
    }
    let by_name = compare_chars(
        &chars_of(a.symbol.qualified_name.as_str()),
        &chars_of(b.symbol.qualified_name.as_str()),
    );
    if by_name != Order::Equal {
        return by_name;
    }
    let (x, y) = (a.symbol.span, b.symbol.span);
    if x.start_line < y.start_line {
        Order::Less
    } else if x.start_line > y.start_line {
        Order::Greater
    } else if x.start_col < y.start_col {
        Order::Less
    } else if x.start_col > y.start_col {
        Order::Greater
    } else {
        Order::Equal
    }
}

/// The entries in report order, sorted by insertion as `sort_matches` describes.
pub fn sort_entries(entries: Vec<MatchEntry>) -> (r: Vec<MatchEntry>)
    ensures
        entry_views(r@) == sort_matches(entry_views(entries@)),
{
    let ghost all = entry_views(entries@);
    let n = entries.len();
    assert(all.len() == n);
    let mut input = entries;
    let mut sorted: Vec<MatchEntry> = Vec::new();
    let mut k: usize = 0;
    assert(all.take(0) =~= Seq::<(Seq<char>, SymbolView)>::empty());
    assert(all.subrange(0, all.len() as int) =~= all);
    while input.len() > 0
        invariant
            k + input@.len() == all.len(),
            all.len() <= usize::MAX,
            entry_views(input@) == all.subrange(k as int, all.len() as int),
            entry_views(sorted@) == sort_matches(all.take(k as int)),
        decreases input@.len(),
    {
        let ghost old_in = input@;
        let x = take_first(&mut input);
        assert(entry_views(old_in)[0] == (x.path@, x.symbol@));
        assert(entry_views(input@) =~= entry_views(old_in).subrange(1, old_in.len() as int));
        assert(entry_views(input@) =~= all.subrange(k + 1, all.len() as int));
        assert((x.path@, x.symbol@) == all[k as int]);
        assert(all.take(k + 1).drop_last() =~= all.take(k as int));
        let ghost s = entry_views(sorted@);
        let ghost xv = all[k as int];
        let mut p: usize = 0;
        while p < sorted.len() && compare_entries(&sorted[p], &x) != Order::Greater
            invariant
                s == entry_views(sorted@),
                xv == (x.path@, x.symbol@),
                p <= sorted.len(),
                insert_pos(s, xv, 0) == insert_pos(s, xv, p as int),
            decreases sorted.len() - p,
        {
            p += 1;
        }
        assert(insert_pos(s, xv, p as int) == p as int);
        sorted.insert(p, x);
        assert(entry_views(sorted@) =~= s.subrange(0, p as int) + seq![xv] + s.subrange(
            p as int,
            s.len() as int,
        ));
        k += 1;
    }
    assert(all.take(k as int) =~= all);
    sorted
}

/// The report of a search over the given repositories: every repository's symbols called
/// `query.symbol` (by name or qualified name) whose file it knows, each with the path of
/// that file; outside the directory scope `dir_scope` left out when one is given; ordered by
/// path, qualified name, start line and start column.
pub fn find_in_repos(query: &FindQuery, repos: &Vec<LoadedRepo>, dir_scope: Option<&str>) -> (r: Vec<SymbolSearchResult>)
    ensures
        result_views(r@) == spec_find_in_repos(repos@, query.symbol@, match dir_scope {
            Some(d) => Some(d@),
            None => None,
        }),
{
    let matches = gather_matches(repos, query.symbol.as_str());
    let matches = retain_in_scope(matches, dir_scope);
    let sorted = sort_entries(matches);
    let ghost all = entry_views(sorted@);
    let n = sorted.len();
    assert(all.len() == n);
    let mut input = sorted;
    let mut r: Vec<SymbolSearchResult> = Vec::new();
    let mut k: usize = 0;
    assert(all.subrange(0, all.len() as int) =~= all);
    while input.len() > 0
        invariant
            k + input@.len() == all.len(),
            all.len() <= usize::MAX,
            entry_views(input@) == all.subrange(k as int, all.len() as int),
            result_views(r@) == results_of(all.take(k as int)),
        decreases input@.len(),
    {
        let ghost old_in = input@;
        let e = take_first(&mut input);
        assert(entry_views(old_in)[0] == (e.path@, e.symbol@));
        assert(entry_views(input@) =~= entry_views(old_in).subrange(1, old_in.len() as int));
        assert(entry_views(input@) =~= all.subrange(k + 1, all.len() as int));
        assert((e.path@, e.symbol@) == all[k as int]);
        let ghost mid = result_views(r@);
        let ghost ev = (e.path@, e.symbol@);
        let result = SymbolSearchResult::new(e.path, e.symbol);
        r.push(result);
        assert(result_views(r@) =~= mid.push(result_of(ev.0, ev.1)));
        assert(all.take(k + 1) =~= all.take(k as int).push(ev));
        assert(results_of(all.take(k + 1)) =~= results_of(all.take(k as int)).push(result_of(ev.0, ev.1)));
        k += 1;
    }
    assert(all.take(k as int) =~= all);
    r
}

/// The outcome of a search: the error met finding the directory scope, or else the error
/// met reading the stored repositories, or else the report over them.
pub fn find(
    query: &FindQuery,
    dir_scope: Result<Option<String>, String>,
    repos: Result<Vec<LoadedRepo>, String>,
) -> (r: Result<Vec<SymbolSearchResult>, String>)
    ensures
        match (dir_scope, repos) {
            (Err(e), _) => r matches Err(x) && x@ == e@,
            (Ok(_), Err(e)) => r matches Err(x) && x@ == e@,
            (Ok(d), Ok(rs)) => r matches Ok(v) && result_views(v@) == spec_find_in_repos(
                rs@,
                query.symbol@,
                opt_str(d),
            ),
        },
{
    let dir = match dir_scope {
        Ok(d) => d,
        Err(e) => return Err(e),
    };
    let repos = match repos {
        Ok(rs) => rs,
        Err(e) => return Err(e),
    };
    let scope = match &dir {
        Some(d) => Some(d.as_str()),
        None => None,
    };
    Ok(find_in_repos(query, &repos, scope))
}


/// `match_order` is a total preorder: swapping the arguments flips the outcome, either side
/// of an `Equal` outcome can stand for the other, and `Less` chains.
pub proof fn lemma_match_order_total(
    x: (Seq<char>, SymbolView),
    y: (Seq<char>, SymbolView),
    z: (Seq<char>, SymbolView),
)
    ensures
        match_order(y, x) == flip(match_order(x, y)),
        match_order(x, y) == Order::Equal ==> match_order(x, z) == match_order(y, z),
        match_order(y, z) == Order::Equal ==> match_order(x, z) == match_order(x, y),
        match_order(x, y) == Order::Less && match_order(y, z) == Order::Less ==> match_order(x, z)
            == Order::Less,
{
    lemma_path_order_total(x.0, y.0, z.0);
    lemma_chars_order_total(x.1.qualified_name, y.1.qualified_name, z.1.qualified_name);
    lemma_chars_order_total(y.1.qualified_name, z.1.qualified_name, x.1.qualified_name);
    lemma_chars_order_total(x.1.qualified_name, z.1.qualified_name, y.1.qualified_name);
}

/// No entry orders after a later one.
pub open spec fn in_report_order(s: Seq<(Seq<char>, SymbolView)>) -> bool {
    forall|i: int, j: int| 0 <= i < j < s.len() ==> match_order(s[i], s[j]) != Order::Greater
}

proof fn lemma_insert_pos(s: Seq<(Seq<char>, SymbolView)>, x: (Seq<char>, SymbolView), i: int)
    requires
        0 <= i <= s.len(),
    ensures
        i <= insert_pos(s, x, i) <= s.len(),
        forall|k: int| i <= k < insert_pos(s, x, i) ==> match_order(s[k], x) != Order::Greater,
        insert_pos(s, x, i) < s.len() ==> match_order(s[insert_pos(s, x, i)], x) == Order::Greater,
    decreases s.len() - i,
{
    if i < s.len() && match_order(s[i], x) != Order::Greater {
        lemma_insert_pos(s, x, i + 1);
    }
}

proof fn lemma_insert_sorted(s: Seq<(Seq<char>, SymbolView)>, x: (Seq<char>, SymbolView))
    requires
        in_report_order(s),
    ensures
        in_report_order(insert_sorted(s, x)),
        insert_sorted(s, x).to_multiset() == s.to_multiset().insert(x),
{
    let p = insert_pos(s, x, 0);
    lemma_insert_pos(s, x, 0);
    let r = insert_sorted(s, x);
    assert(r =~= s.insert(p, x));
    vstd::seq_lib::to_multiset_insert(s, p, x);
    assert forall|i: int, j: int| 0 <= i < j < r.len() implies match_order(r[i], r[j])
        != Order::Greater by {
        if j < p {
            assert(r[i] == s[i] && r[j] == s[j]);
        } else if j == p {
            assert(r[i] == s[i] && r[j] == x);
        } else if i < p {
            assert(r[i] == s[i] && r[j] == s[j - 1]);
        } else if i == p {
            assert(r[i] == x && r[j] == s[j - 1]);
            lemma_match_order_total(x, s[p], s[j - 1]);
            lemma_match_order_total(s[p], x, s[j - 1]);
        } else {
            assert(r[i] == s[i - 1] && r[j] == s[j - 1]);
        }
    }
}

/// Sorting keeps exactly the entries it was given and puts them in report order.
pub proof fn lemma_sort_matches(s: Seq<(Seq<char>, SymbolView)>)
    ensures
        in_report_order(sort_matches(s)),
        sort_matches(s).to_multiset() == s.to_multiset(),
    decreases s.len(),
{
    if s.len() > 0 {
        lemma_sort_matches(s.drop_last());
        lemma_insert_sorted(sort_matches(s.drop_last()), s.last());
        assert(s =~= s.drop_last().push(s.last()));
        vstd::seq_lib::to_multiset_build(s.drop_last(), s.last());
    } else {
        assert(sort_matches(s) =~= s);
    }
}


/// The entry is a symbol called `query`, by its name or by its qualified name.
pub open spec fn named(e: (Seq<char>, SymbolView), query: Seq<char>) -> bool {
    e.1.name == query || e.1.qualified_name == query
}

proof fn lemma_found_symbols_named(repo: Repo, symbols: Seq<SymbolNode>, query: Seq<char>)
    ensures
        forall|k: int|
            0 <= k < found_symbols(repo, symbols, query).len() ==> {
                let v = #[trigger] found_symbols(repo, symbols, query)[k];
                v.name == query || v.qualified_name == query
            },
    decreases symbols.len(),
{
    if symbols.len() > 0 {
        lemma_found_symbols_named(repo, symbols.drop_last(), query);
    }
}

proof fn lemma_all_matches_named(repos: Seq<LoadedRepo>, query: Seq<char>)
    ensures
        forall|k: int|
            0 <= k < all_matches(repos, query).len() ==> named(
                #[trigger] all_matches(repos, query)[k],
                query,
            ),
    decreases repos.len(),
{
    if repos.len() > 0 {
        let a = all_matches(repos.drop_last(), query);
        let b = repo_matches(repos.last(), query);
        lemma_all_matches_named(repos.drop_last(), query);
        lemma_found_symbols_named(repos.last().repo, repos.last().repo.symbols@, query);
        assert forall|k: int| 0 <= k < all_matches(repos, query).len() implies named(
            #[trigger] all_matches(repos, query)[k],
            query,
        ) by {
            if k < a.len() {
                assert(all_matches(repos, query)[k] == a[k]);
            } else {
                assert(all_matches(repos, query)[k] == b[k - a.len()]);
            }
        }
    }
}

proof fn lemma_scoped_matches(ms: Seq<(Seq<char>, SymbolView)>, dir: Option<Seq<char>>)
    ensures
        forall|k: int|
            0 <= k < scoped_matches(ms, dir).len() ==> in_scope(
                (#[trigger] scoped_matches(ms, dir)[k]).0,
                dir,
            ) && ms.contains(scoped_matches(ms, dir)[k]),
    decreases ms.len(),
{
    if ms.len() > 0 {
        let before = scoped_matches(ms.drop_last(), dir);
        lemma_scoped_matches(ms.drop_last(), dir);
        assert forall|k: int| 0 <= k < scoped_matches(ms, dir).len() implies in_scope(
            (#[trigger] scoped_matches(ms, dir)[k]).0,
            dir,
        ) && ms.contains(scoped_matches(ms, dir)[k]) by {
            if k < before.len() {
                let x = before[k];
                assert(scoped_matches(ms, dir)[k] == x);
                let i = choose|i: int| 0 <= i < ms.drop_last().len() && ms.drop_last()[i] == x;
                assert(ms[i] == x);
            } else {
                assert(scoped_matches(ms, dir)[k] == ms.last());
                assert(ms[ms.len() - 1] == ms.last());
            }
        }
    }
}

/// What a search reports: each report is a symbol called by the searched name (simple or
/// qualified) whose file lies in the directory scope when one is given; the reports come in
/// report order, and they are the in-scope matches, each exactly once.
pub proof fn lemma_find_reports(repos: Seq<LoadedRepo>, query: Seq<char>, dir: Option<Seq<char>>)
    ensures
        in_report_order(sort_matches(scoped_matches(all_matches(repos, query), dir))),
        sort_matches(scoped_matches(all_matches(repos, query), dir)).to_multiset()
            == scoped_matches(all_matches(repos, query), dir).to_multiset(),
        spec_find_in_repos(repos, query, dir) == results_of(
            sort_matches(scoped_matches(all_matches(repos, query), dir)),
        ),
        forall|k: int|
            0 <= k < spec_find_in_repos(repos, query, dir).len() ==> {
                let r = #[trigger] spec_find_in_repos(repos, query, dir)[k];
                &&& r.name == query || r.qualified_name == query
                &&& in_scope(r.path, dir)
            },
{
    let all = all_matches(repos, query);
    let scoped = scoped_matches(all, dir);
    let sorted = sort_matches(scoped);
    lemma_sort_matches(scoped);
    lemma_scoped_matches(all, dir);
    lemma_all_matches_named(repos, query);
    assert forall|k: int| 0 <= k < spec_find_in_repos(repos, query, dir).len() implies {
        let r = #[trigger] spec_find_in_repos(repos, query, dir)[k];
        &&& r.name == query || r.qualified_name == query
        &&& in_scope(r.path, dir)
    } by {
        let e = sorted[k];
        assert(sorted.contains(e));
        vstd::seq_lib::to_multiset_contains(sorted, e);
        vstd::seq_lib::to_multiset_contains(scoped, e);
        let j = choose|j: int| 0 <= j < scoped.len() && scoped[j] == e;
        assert(in_scope(scoped[j].0, dir));
        assert(all.contains(scoped[j]));
        let i = choose|i: int| 0 <= i < all.len() && all[i] == e;
        assert(named(all[i], query));
    }
}


/// The test for an entry that orders equal to `x`.
pub open spec fn ties_with(x: (Seq<char>, SymbolView)) -> spec_fn((Seq<char>, SymbolView)) -> bool {
    |e: (Seq<char>, SymbolView)| match_order(e, x) == Order::Equal
}

/// The entries of `s` that order equal to `x`, in the order they stand in `s`.
pub open spec fn ties(s: Seq<(Seq<char>, SymbolView)>, x: (Seq<char>, SymbolView)) -> Seq<
    (Seq<char>, SymbolView),
> {
    s.filter(ties_with(x))
}

proof fn lemma_ties_none(q: Seq<(Seq<char>, SymbolView)>, x: (Seq<char>, SymbolView))
    requires
        forall|k: int| 0 <= k < q.len() ==> match_order(#[trigger] q[k], x) != Order::Equal,
    ensures
        ties(q, x) == Seq::<(Seq<char>, SymbolView)>::empty(),
    decreases q.len(),
{
    reveal(Seq::filter);
    if q.len() > 0 {
        assert forall|k: int| 0 <= k < q.drop_last().len() implies match_order(
            #[trigger] q.drop_last()[k],
            x,
        ) != Order::Equal by {
            assert(q.drop_last()[k] == q[k]);
        }
        lemma_ties_none(q.drop_last(), x);
        assert(!ties_with(x)(q.last()));
    } else {
        assert(q =~= Seq::<(Seq<char>, SymbolView)>::empty());
    }
}

proof fn lemma_ties_one(y: (Seq<char>, SymbolView), x: (Seq<char>, SymbolView))
    ensures
        ties(seq![y], x) == if match_order(y, x) == Order::Equal {
            seq![y]
        } else {
            Seq::<(Seq<char>, SymbolView)>::empty()
        },
{
    reveal(Seq::filter);
    let one = seq![y];
    assert(one.drop_last() =~= Seq::<(Seq<char>, SymbolView)>::empty());
    assert(one.last() == y);
    assert(ties(one.drop_last(), x) == one.drop_last());
    if match_order(y, x) == Order::Equal {
        assert(one.drop_last().push(y) =~= one);
    }
}

proof fn lemma_insert_sorted_ties(
    t: Seq<(Seq<char>, SymbolView)>,
    y: (Seq<char>, SymbolView),
    x: (Seq<char>, SymbolView),
)
    requires
        in_report_order(t),
    ensures
        ties(insert_sorted(t, y), x) == if match_order(y, x) == Order::Equal {
            ties(t, x).push(y)
        } else {
            ties(t, x)
        },
{
    let p = insert_pos(t, y, 0);
    lemma_insert_pos(t, y, 0);
    let a = t.subrange(0, p);
    let b = t.subrange(p, t.len() as int);
    let pred = ties_with(x);
    assert(t =~= a + b);
    Seq::filter_distributes_over_add(a, b, pred);
    Seq::filter_distributes_over_add(a, seq![y], pred);
    Seq::filter_distributes_over_add(a + seq![y], b, pred);
    lemma_ties_one(y, x);
    if match_order(y, x) == Order::Equal {
        assert forall|k: int| 0 <= k < b.len() implies match_order(#[trigger] b[k], x)
            != Order::Equal by {
            let e = t[p + k];
            assert(b[k] == e);
            lemma_match_order_total(y, t[p], e);
            lemma_match_order_total(t[p], y, e);
            lemma_match_order_total(e, y, x);
        }
        lemma_ties_none(b, x);
        assert(ties(b, x) == Seq::<(Seq<char>, SymbolView)>::empty());
        assert(ties(insert_sorted(t, y), x) =~= ties(t, x).push(y));
    } else {
        assert(ties(insert_sorted(t, y), x) =~= ties(t, x));
    }
}

/// Sorting is stable: the entries that order equal to any given entry come out in the
/// order they went in.
pub proof fn lemma_sort_matches_stable(s: Seq<(Seq<char>, SymbolView)>, x: (Seq<char>, SymbolView))
    ensures
        ties(sort_matches(s), x) == ties(s, x),
    decreases s.len(),
{
    reveal(Seq::filter);
    if s.len() > 0 {
        lemma_sort_matches_stable(s.drop_last(), x);
        lemma_sort_matches(s.drop_last());
        lemma_insert_sorted_ties(sort_matches(s.drop_last()), s.last(), x);
    }
}


/// The word reported for a symbol names its kind: `function` exactly for a function, `struct`
/// exactly for a struct, `import` exactly for an import.
pub proof fn lemma_symbol_kind_words(info: InfoView)
    ensures
        spec_symbol_kind(info) == "function"@ <==> info is Function,
        spec_symbol_kind(info) == "struct"@ <==> info is Struct,
        spec_symbol_kind(info) == "import"@ <==> info is Import,
{
    reveal_strlit("function");
    reveal_strlit("struct");
    reveal_strlit("import");
    assert("function"@ != "struct"@) by {
        assert("function"@.len() != "struct"@.len());
    }
    assert("function"@ != "import"@) by {
        assert("function"@.len() != "import"@.len());
    }
    assert("struct"@ != "import"@) by {
        assert("struct"@[0] != "import"@[0]);
    }
}

/// Every report of a search gives the kind of its symbol: `import` exactly for an import, and
/// likewise for functions and structs.
pub proof fn lemma_report_kinds(repos: Seq<LoadedRepo>, query: Seq<char>, dir: Option<Seq<char>>)
    ensures
        forall|k: int|
            0 <= k < spec_find_in_repos(repos, query, dir).len() ==> {
                let r = #[trigger] spec_find_in_repos(repos, query, dir)[k];
                &&& (r.kind == "function"@ <==> r.info is Function)
                &&& (r.kind == "struct"@ <==> r.info is Struct)
                &&& (r.kind == "import"@ <==> r.info is Import)
            },
{
    assert forall|k: int| 0 <= k < spec_find_in_repos(repos, query, dir).len() implies {
        let r = #[trigger] spec_find_in_repos(repos, query, dir)[k];
        &&& (r.kind == "function"@ <==> r.info is Function)
        &&& (r.kind == "struct"@ <==> r.info is Struct)
        &&& (r.kind == "import"@ <==> r.info is Import)
    } by {
        lemma_symbol_kind_words(spec_find_in_repos(repos, query, dir)[k].info);
    }
}

proof fn lemma_found_symbols_complete(repo: Repo, symbols: Seq<SymbolNode>, query: Seq<char>, j: int)
    requires
        0 <= j < symbols.len(),
        symbols[j].name@ == query || symbols[j].qualified_name@ == query,
        spec_symbol_file(repo, symbols[j].id) is Some,
    ensures
        found_symbols(repo, symbols, query).contains(symbols[j]@),
    decreases symbols.len(),
{
    let f = found_symbols(repo, symbols, query);
    if j == symbols.len() - 1 {
        assert(f[f.len() - 1] == symbols[j]@);
    } else {
        assert(symbols.drop_last()[j] == symbols[j]);
        lemma_found_symbols_complete(repo, symbols.drop_last(), query, j);
        let before = found_symbols(repo, symbols.drop_last(), query);
        let m = choose|m: int| 0 <= m < before.len() && before[m] == symbols[j]@;
        assert(f[m] == symbols[j]@);
    }
}

proof fn lemma_all_matches_complete(repos: Seq<LoadedRepo>, query: Seq<char>, i: int, e: (Seq<char>, SymbolView))
    requires
        0 <= i < repos.len(),
        repo_matches(repos[i], query).contains(e),
    ensures
        all_matches(repos, query).contains(e),
    decreases repos.len(),
{
    let a = all_matches(repos.drop_last(), query);
    let b = repo_matches(repos.last(), query);
    let all = all_matches(repos, query);
    if i == repos.len() - 1 {
        let m = choose|m: int| 0 <= m < b.len() && b[m] == e;
        assert(all[a.len() + m] == e);
    } else {
        assert(repos.drop_last()[i] == repos[i]);
        lemma_all_matches_complete(repos.drop_last(), query, i, e);
        let m = choose|m: int| 0 <= m < a.len() && a[m] == e;
        assert(all[m] == e);
    }
}

proof fn lemma_scoped_matches_complete(ms: Seq<(Seq<char>, SymbolView)>, dir: Option<Seq<char>>, e: (Seq<char>, SymbolView))
    requires
        ms.contains(e),
        in_scope(e.0, dir),
    ensures
        scoped_matches(ms, dir).contains(e),
    decreases ms.len(),
{
    let sc = scoped_matches(ms, dir);
    if ms.last() == e {
        assert(sc[sc.len() - 1] == e);
    } else {
        let m = choose|m: int| 0 <= m < ms.len() && ms[m] == e;
        assert(m < ms.len() - 1);
        assert(ms.drop_last()[m] == e);
        lemma_scoped_matches_complete(ms.drop_last(), dir, e);
        let before = scoped_matches(ms.drop_last(), dir);
        let q = choose|q: int| 0 <= q < before.len() && before[q] == e;
        assert(sc[q] == e);
    }
}

/// A search misses nothing: every symbol of any of the repositories searched that is called
/// the query (by name or qualified name), whose file the repository knows, and whose file
/// lies in the directory scope, is reported, with the path of its file.
pub proof fn lemma_find_complete(
    repos: Seq<LoadedRepo>,
    query: Seq<char>,
    dir: Option<Seq<char>>,
    i: int,
    j: int,
)
    requires
        0 <= i < repos.len(),
        0 <= j < repos[i].repo.symbols@.len(),
        repos[i].repo.symbols@[j].name@ == query || repos[i].repo.symbols@[j].qualified_name@
            == query,
        spec_symbol_file(repos[i].repo, repos[i].repo.symbols@[j].id) is Some,
        in_scope(
            spec_symbol_file_path(
                repos[i].repo,
                repos[i].repo.symbols@[j].id,
                repos[i].root_is_file,
            )->0,
            dir,
        ),
    ensures
        spec_find_in_repos(repos, query, dir).contains(
            result_of(
                spec_symbol_file_path(
                    repos[i].repo,
                    repos[i].repo.symbols@[j].id,
                    repos[i].root_is_file,
                )->0,
                repos[i].repo.symbols@[j]@,
            ),
        ),
{
    let lr = repos[i];
    let sym = lr.repo.symbols@[j];
    let path = spec_symbol_file_path(lr.repo, sym.id, lr.root_is_file)->0;
    let e = (path, sym@);
    lemma_found_symbols_complete(lr.repo, lr.repo.symbols@, query, j);
    let found = found_symbols(lr.repo, lr.repo.symbols@, query);
    let m = choose|m: int| 0 <= m < found.len() && found[m] == sym@;
    assert(repo_matches(lr, query)[m] == e);
    lemma_all_matches_complete(repos, query, i, e);
    let all = all_matches(repos, query);
    lemma_scoped_matches_complete(all, dir, e);
    let scoped = scoped_matches(all, dir);
    lemma_sort_matches(scoped);
    let sorted = sort_matches(scoped);
    vstd::seq_lib::to_multiset_contains(scoped, e);
    vstd::seq_lib::to_multiset_contains(sorted, e);
    let q = choose|q: int| 0 <= q < sorted.len() && sorted[q] == e;
    assert(spec_find_in_repos(repos, query, dir)[q] == result_of(path, sym@));
}

} // verus!
