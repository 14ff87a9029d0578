//! The repository-scan filter built from a repository's root `.gitignore`.
use vstd::prelude::*;
use crate::config::IgnoreFilterConfig;
use crate::paths::{components, cur_dir, path_components};
use crate::text::{chars_of, has_prefix, same_chars, string_of, strs};
use vstd::utf8::encode_utf8;

verus! {

#[verifier::external_type_specification]
#[verifier::external_body]
pub struct ExGitignore(ignore::gitignore::Gitignore);

#[verifier::external_type_specification]
#[verifier::external_body]
pub struct ExGitignoreBuilder(ignore::gitignore::GitignoreBuilder);

#[verifier::external_type_specification]
#[verifier::external_body]
pub struct ExIgnoreError(ignore::Error);

/// The rules a `GitignoreBuilder` holds so far, in the order they were added: of each glob,
/// its line as written (`Glob::original`) and whether it matches without regard to case.
pub uninterp spec fn builder_rules(builder: ignore::gitignore::GitignoreBuilder) -> Seq<(Seq<char>, bool)>;

/// The bytes of the root a `GitignoreBuilder` was made for.
pub uninterp spec fn builder_root(builder: ignore::gitignore::GitignoreBuilder) -> Seq<u8>;

/// Whether a `GitignoreBuilder` adds its globs to be matched without regard to case (its
/// `case_insensitive` setting).
pub uninterp spec fn builder_case_insensitive(builder: ignore::gitignore::GitignoreBuilder) -> bool;

/// A character that `char::is_whitespace` accepts (the Unicode `White_Space` property).
pub open spec fn is_white_space(c: char) -> bool {
    let u = c as u32;
    ||| 0x09 <= u <= 0x0D
    ||| u == 0x20
    ||| u == 0x85
    ||| u == 0xA0
    ||| u == 0x1680
    ||| 0x2000 <= u <= 0x200A
    ||| u == 0x2028
    ||| u == 0x2029
    ||| u == 0x202F
    ||| u == 0x205F
    ||| u == 0x3000
}

/// The text without its trailing white space, as `str::trim_end` gives it.
pub open spec fn trim_end(s: Seq<char>) -> Seq<char>
    decreases s.len(),
{
    if s.len() > 0 && is_white_space(s.last()) {
        trim_end(s.drop_last())
    } else {
        s
    }
}

/// The rule a `.gitignore` line gives, as `GitignoreBuilder::add_line` reads it: none for a
/// line that starts with `#` or is blank once its trailing white space is taken off (kept
/// when the line ends with an escaped space `\ `); otherwise that trimmed line.
pub open spec fn line_rule(line: Seq<char>) -> Option<Seq<char>> {
    let trimmed = if line.len() >= 2 && line[line.len() - 2] == '\\' && line.last() == ' ' {
        line
    } else {
        trim_end(line)
    };
    if has_prefix(line, seq!['#']) || trimmed.len() == 0 {
        None
    } else {
        Some(trimmed)
    }
}

/// The text without the byte-order marks at its front.
pub open spec fn strip_bom(s: Seq<char>) -> Seq<char>
    decreases s.len(),
{
    if s.len() > 0 && s[0] == '\u{feff}' {
        strip_bom(s.drop_first())
    } else {
        s
    }
}

/// Line `k` of a `.gitignore` file as it is added: the first line without its byte-order
/// marks.
pub open spec fn prepared_line(lines: Seq<Seq<char>>, k: int) -> Seq<char> {
    if k == 0 {
        strip_bom(lines[0])
    } else {
        lines[k]
    }
}

/// The rules the first `n` lines of a `.gitignore` file give, matched with regard to case.
pub open spec fn rules_of_lines(lines: Seq<Seq<char>>, n: int) -> Seq<(Seq<char>, bool)>
    decreases n,
{
    if n <= 0 {
        Seq::empty()
    } else {
        let before = rules_of_lines(lines, n - 1);
        match line_rule(prepared_line(lines, n - 1)) {
            Some(r) => before.push((r, false)),
            None => before,
        }
    }
}

proof fn lemma_rules_of_lines_grow(lines: Seq<Seq<char>>, m: int, n: int)
    requires
        0 <= m <= n,
    ensures
        rules_of_lines(lines, m).len() <= rules_of_lines(lines, n).len(),
    decreases n - m,
{
    if m < n {
        lemma_rules_of_lines_grow(lines, m, n - 1);
    }
}

/// The root a `GitignoreBuilder` keeps for `root`: its bytes without a leading `./`.
pub open spec fn builder_root_for(root: Seq<char>) -> Seq<u8> {
    let b = encode_utf8(root);
    if bytes_prefix(b, seq![0x2Eu8, 0x2Fu8]) {
        b.subrange(2, b.len() as int)
    } else {
        b
    }
}

/// `GitignoreBuilder::new(root)`: a builder with no rule, matching with regard to case, for
/// `root` with a leading `./` taken off.
#[verifier::external_body]
fn builder_new(root: &str) -> (builder: ignore::gitignore::GitignoreBuilder)
    ensures
        builder_rules(builder) == Seq::<(Seq<char>, bool)>::empty(),
        builder_root(builder) == builder_root_for(root@),
        !builder_case_insensitive(builder),
{
    ignore::gitignore::GitignoreBuilder::new(root)
}

/// `GitignoreBuilder::add_line(None, line)`: a comment or blank line is accepted and adds
/// nothing; any other line adds its rule, with the builder's case setting, when its glob
/// parses, and otherwise changes nothing and gives the error. Which globs parse is not
/// claimed.
#[verifier::external_body]
fn builder_add_line(builder: &mut ignore::gitignore::GitignoreBuilder, line: &str) -> (r: Result<(), ignore::Error>)
    ensures
        builder_root(*final(builder)) == builder_root(*old(builder)),
        builder_case_insensitive(*final(builder)) == builder_case_insensitive(*old(builder)),
        line_rule(line@) is None ==> r is Ok,
        r is Ok ==> builder_rules(*final(builder)) == match line_rule(line@) {
            Some(rule) => builder_rules(*old(builder)).push(
                (rule, builder_case_insensitive(*old(builder))),
            ),
            None => builder_rules(*old(builder)),
        },
        r is Err ==> builder_rules(*final(builder)) == builder_rules(*old(builder)),
{
    builder.add_line(None, line).map(|_| ())
}

/// `GitignoreBuilder::build`: the matcher holds the builder's rules, and, when it holds any,
/// the builder's root. A builder with no rule always builds; whether compiling the globs
/// succeeds otherwise is not claimed.
#[verifier::external_body]
fn builder_build(builder: &ignore::gitignore::GitignoreBuilder) -> (r: Result<ignore::gitignore::Gitignore, ignore::Error>)
    ensures
        builder_rules(*builder).len() == 0 ==> r is Ok,
        r matches Ok(m) ==> gitignore_rules(m) == builder_rules(*builder) && (builder_rules(
            *builder,
        ).len() > 0 ==> gitignore_root(m) == builder_root(*builder)),
{
    builder.build()
}

/// The text of an error of the `ignore` crate (its `Display`). Nothing is claimed of it.
#[verifier::external_body]
fn error_message(error: &ignore::Error) -> String {
    error.to_string()
}

/// The first byte-order marks taken off the front of a line.
fn without_bom(line: &str) -> (r: String)
    ensures
        r@ == strip_bom(line@),
{
    let c = chars_of(line);
    let mut k: usize = 0;
    assert(c@.subrange(0, c@.len() as int) =~= c@);
    while k < c.len() && c[k] == '\u{feff}'
        invariant
            k <= c@.len(),
            strip_bom(c@) == strip_bom(c@.subrange(k as int, c@.len() as int)),
        decreases c.len() - k,
    {
        assert(c@.subrange(k as int, c@.len() as int).drop_first() =~= c@.subrange(
            k + 1,
            c@.len() as int,
        ));
        k += 1;
    }
    let mut rest: Vec<char> = Vec::new();
    let mut i = k;
    while i < c.len()
        invariant
            k <= i <= c@.len(),
            rest@ == c@.subrange(k as int, i as int),
        decreases c.len() - i,
    {
        rest.push(c[i]);
        assert(rest@ =~= c@.subrange(k as int, i + 1));
        i += 1;
    }
    assert(c@.subrange(0, c@.len() as int) =~= c@);
    string_of(rest.as_slice())
}

/// Why the rules of a repository's root `.gitignore` could not be used.
#[derive(Debug)]
pub enum IgnoreRulesError {
    /// The line with this number (from 1) holds a glob that does not parse.
    Parse { line: usize, message: String },
    /// The globs do not compile into a matcher.
    Build { message: String },
}

/// The filter applies the rules of the repository's root `.gitignore` only when it is
/// enabled and told to read that file.
pub open spec fn reads_repo_gitignore(config: IgnoreFilterConfig) -> bool {
    config.enabled && config.read_repo_gitignore
}

/// Whether the repository's root `.gitignore` should be read for this configuration.
pub fn wants_repo_gitignore(config: &IgnoreFilterConfig) -> (b: bool)
    ensures
        b == reads_repo_gitignore(*config),
{
    config.enabled && config.read_repo_gitignore
}

/// The rules a `Gitignore` matcher holds, in the order they were added: of each glob, its
/// line as written (`Glob::original`) and whether it matches without regard to case (the
/// builder's `case_insensitive` setting when the line was added). Together with the root
/// these decide every answer of the matcher.
pub uninterp spec fn gitignore_rules(matcher: ignore::gitignore::Gitignore) -> Seq<(Seq<char>, bool)>;

/// The bytes of the directory a `Gitignore` matcher was built for (`Gitignore::path`), which
/// it strips from the front of the paths it is asked about.
pub uninterp spec fn gitignore_root(matcher: ignore::gitignore::Gitignore) -> Seq<u8>;

/// Whether the rules, read relative to `root`, ignore `path` or one of its parent
/// directories: the answer of `Gitignore::matched_path_or_any_parents(path, is_dir)`, a
/// later rule overriding an earlier one and a `!` rule re-including what it matches.
pub uninterp spec fn gitignore_ignores(
    root: Seq<u8>,
    rules: Seq<(Seq<char>, bool)>,
    path: Seq<char>,
    is_dir: bool,
) -> bool;

/// `s` begins with the bytes `p`.
pub open spec fn bytes_prefix(s: Seq<u8>, p: Seq<u8>) -> bool {
    p.len() <= s.len() && s.subrange(0, p.len() as int) == p
}

/// The bytes of a path read as characters one by one, which keeps every `/` and `.` where
/// it stands: what `Path` looks at to take a path apart into components.
pub open spec fn bytes_as_chars(b: Seq<u8>) -> Seq<char> {
    b.map_values(|x: u8| x as char)
}

/// The root equals `Path::new(".")`: its only component is `.`.
pub open spec fn root_is_cur_dir(root: Seq<u8>) -> bool {
    components(bytes_as_chars(root)) == seq![cur_dir()]
}

/// The bytes a `Gitignore` with root `root` matches for the path bytes `path`: a leading
/// `./` taken off, then, unless the root is `.` or no `/` is left in the path, the root taken
/// off the front where it stands there, and after it one `/`.
pub open spec fn stripped_for_lookup(root: Seq<u8>, path: Seq<u8>) -> Seq<u8> {
    let p1 = if bytes_prefix(path, seq![0x2Eu8, 0x2Fu8]) {
        path.subrange(2, path.len() as int)
    } else {
        path
    };
    if !root_is_cur_dir(root) && p1.contains(0x2Fu8) && bytes_prefix(p1, root) {
        let t = p1.subrange(root.len() as int, p1.len() as int);
        if t.len() > 0 && t[0] == 0x2Fu8 {
            t.subrange(1, t.len() as int)
        } else {
            t
        }
    } else {
        p1
    }
}

/// The path can be looked up in the matcher without a panic: the matcher holds no rule, or
/// what is left of the path after stripping does not start with `/`.
pub open spec fn lookup_ok(matcher: ignore::gitignore::Gitignore, path: Seq<char>) -> bool {
    let left = stripped_for_lookup(gitignore_root(matcher), encode_utf8(path));
    gitignore_rules(matcher).len() == 0 || !(left.len() > 0 && left[0] == 0x2Fu8)
}

/// `Gitignore::path`: the bytes of the matcher's root.
#[verifier::external_body]
fn matcher_root(matcher: &ignore::gitignore::Gitignore) -> (root: Vec<u8>)
    ensures
        root@ == gitignore_root(*matcher),
{
    matcher.path().as_os_str().as_encoded_bytes().to_vec()
}

/// The bytes read as characters one by one.
fn chars_of_bytes(b: &Vec<u8>) -> (v: Vec<char>)
    ensures
        v@ == bytes_as_chars(b@),
{
    let mut v: Vec<char> = Vec::new();
    let mut i: usize = 0;
    while i < b.len()
        invariant
            i <= b.len(),
            v@ == bytes_as_chars(b@.subrange(0, i as int)),
        decreases b.len() - i,
    {
        v.push(b[i] as char);
        assert(bytes_as_chars(b@.subrange(0, i + 1)) =~= bytes_as_chars(b@.subrange(0, i as int)).push(
            b@[i as int] as char,
        ));
        i += 1;
    }
    assert(b@.subrange(0, b.len() as int) =~= b@);
    v
}

/// Whether `s` holds the byte `x` from position `from` on.
fn holds_byte_from(s: &[u8], from: usize, x: u8) -> (r: bool)
    requires
        from <= s@.len(),
    ensures
        r == s@.subrange(from as int, s@.len() as int).contains(x),
{
    let mut i = from;
    while i < s.len()
        invariant
            from <= i <= s@.len(),
            forall|k: int| from <= k < i ==> s@[k] != x,
        decreases s.len() - i,
    {
        if s[i] == x {
            assert(s@.subrange(from as int, s@.len() as int)[i - from] == x);
            return true;
        }
        i += 1;
    }
    assert forall|k: int| 0 <= k < s@.subrange(from as int, s@.len() as int).len() implies
        s@.subrange(from as int, s@.len() as int)[k] != x by {
        assert(s@.subrange(from as int, s@.len() as int)[k] == s@[from + k]);
    }
    false
}

/// Whether `s` holds the bytes `p` at position `at`.
fn bytes_at(s: &[u8], at: usize, p: &Vec<u8>) -> (r: bool)
    requires
        at <= s@.len(),
    ensures
        r == bytes_prefix(s@.subrange(at as int, s@.len() as int), p@),
{
    let ghost t = s@.subrange(at as int, s@.len() as int);
    if p.len() > s.len() - at {
        return false;
    }
    let mut i: usize = 0;
    while i < p.len()
        invariant
            at + p@.len() <= s@.len(),
            s@.len() == s.len(),
            t == s@.subrange(at as int, s@.len() as int),
            i <= p@.len(),
            forall|k: int| 0 <= k < i ==> s@[at + k] == p@[k],
        decreases p.len() - i,
    {
        if s[at + i] != p[i] {
            assert(t.subrange(0, p@.len() as int)[i as int] != p@[i as int]);
            return false;
        }
        i += 1;
    }
    assert(t.subrange(0, p@.len() as int) =~= p@);
    true
}

/// `Gitignore::is_empty`: whether the matcher holds no rule. Its source answers
/// `self.set.is_empty()`, and the glob set holds one glob per rule.
#[verifier::external_body]
fn matcher_is_empty(matcher: &ignore::gitignore::Gitignore) -> (b: bool)
    ensures
        b == (gitignore_rules(*matcher).len() == 0),
{
    matcher.is_empty()
}

/// `Gitignore::matched_path_or_any_parents(path, is_dir).is_ignore()`: whether the path or
/// one of its parent directories is ignored by the matcher's rules. The call panics when the
/// matcher holds a rule and the path, stripped as `stripped_for_lookup` says, starts with
/// `/`; `requires` leaves out exactly those paths. The answer is named by
/// `gitignore_ignores` over the matcher's root and rules.
#[verifier::external_body]
fn matcher_ignores(matcher: &ignore::gitignore::Gitignore, relative_path: &str, is_dir: bool) -> (b: bool)
    requires
        lookup_ok(*matcher, relative_path@),
    ensures
        b == gitignore_ignores(
            gitignore_root(*matcher),
            gitignore_rules(*matcher),
            relative_path@,
            is_dir,
        ),
{
    matcher.matched_path_or_any_parents(relative_path, is_dir).is_ignore()
}

/// Filters the paths met while scanning a repository by its root `.gitignore`.
pub struct RepoScanFilter {
    matcher: ignore::gitignore::Gitignore,
}

impl RepoScanFilter {
    /// The matcher whose rules the filter applies.
    pub closed spec fn gitignore(&self) -> ignore::gitignore::Gitignore {
        self.matcher
    }

    /// The filter for a repository rooted at `repo_root`, given the lines of its root
    /// `.gitignore` when that file exists and was read: no filter when the configuration does
    /// not ask for the file or there are no lines; otherwise the rules of the lines are added
    /// one by one (the first line without its byte-order marks), and a line whose glob does
    /// not parse, or globs that do not compile, give an error. The filter holds the rules of
    /// the lines and the builder's root for `repo_root`, and there is one exactly when those
    /// rules are not empty.
    pub fn load(config: &IgnoreFilterConfig, repo_root: &str, gitignore_lines: Option<Vec<String>>) -> (r: Result<Option<RepoScanFilter>, IgnoreRulesError>)
        ensures
            (!reads_repo_gitignore(*config) || gitignore_lines is None) ==> (r matches Ok(None)),
            reads_repo_gitignore(*config) && gitignore_lines is Some ==> {
                let ls = gitignore_lines->0;
                let rules = rules_of_lines(strs(ls@), ls@.len() as int);
                &&& (rules.len() == 0 ==> r matches Ok(None))
                &&& (r matches Ok(None) ==> rules.len() == 0)
                &&& (r matches Ok(Some(f)) ==> gitignore_rules(f.gitignore()) == rules
                    && gitignore_root(f.gitignore()) == builder_root_for(repo_root@))
                &&& (r matches Err(IgnoreRulesError::Parse { line, .. }) ==> 1 <= line <= ls@.len()
                    && line_rule(prepared_line(strs(ls@), line - 1)) is Some)
                &&& (r matches Err(IgnoreRulesError::Build { .. }) ==> rules.len() > 0)
            },
    {
        if !wants_repo_gitignore(config) {
            return Ok(None);
        }
        let lines = match gitignore_lines {
            Some(l) => l,
            None => return Ok(None),
        };
        let ghost ls = strs(lines@);
        let mut builder = builder_new(repo_root);
        let mut i: usize = 0;
        while i < lines.len()
            invariant
                i <= lines@.len(),
                ls == strs(lines@),
                reads_repo_gitignore(*config),
                gitignore_lines == Some(lines),
                builder_rules(builder) == rules_of_lines(ls, i as int),
                builder_root(builder) == builder_root_for(repo_root@),
                !builder_case_insensitive(builder),
            decreases lines.len() - i,
        {
            let line = if i == 0 {
                without_bom(lines[0].as_str())
            } else {
                lines[i].clone()
            };
            assert(line@ == prepared_line(ls, i as int));
            match builder_add_line(&mut builder, line.as_str()) {
                Ok(()) => {},
                Err(e) => {
                    proof {
                        lemma_rules_of_lines_grow(ls, i + 1, ls.len() as int);
                    }
                    return Err(IgnoreRulesError::Parse { line: i + 1, message: error_message(&e) });
                },
            }
            i += 1;
        }
        let matcher = match builder_build(&builder) {
            Ok(m) => m,
            Err(e) => return Err(IgnoreRulesError::Build { message: error_message(&e) }),
        };
        if matcher_is_empty(&matcher) {
            Ok(None)
        } else {
            Ok(Some(RepoScanFilter { matcher }))
        }
    }

    /// Whether the path can be looked up: the filter's matcher holds no rule, or the path,
    /// stripped of a leading `./` and of the matcher's root as the matcher does it, does not
    /// start with `/`.
    pub fn can_look_up(&self, relative_path: &str) -> (b: bool)
        ensures
            b == lookup_ok(self.gitignore(), relative_path@),
    {
        if matcher_is_empty(&self.matcher) {
            return true;
        }
        let root = matcher_root(&self.matcher);
        let bytes = relative_path.as_bytes();
        let ghost b = bytes@;
        assert(b == encode_utf8(relative_path@));
        let n = bytes.len();
        let k0: usize = if n >= 2 && bytes[0] == 0x2Eu8 && bytes[1] == 0x2Fu8 {
            assert(b.subrange(0, 2) =~= seq![0x2Eu8, 0x2Fu8]);
            2
        } else {
            proof {
                if bytes_prefix(b, seq![0x2Eu8, 0x2Fu8]) {
                    assert(b.subrange(0, 2)[0] == b[0]);
                    assert(b.subrange(0, 2)[1] == b[1]);
                }
            }
            0
        };
        assert(b.subrange(0, n as int) =~= b);
        let ghost p1 = b.subrange(k0 as int, n as int);
        let root_chars = chars_of_bytes(&root);
        let comps = path_components(&root_chars);
        let dot = vec!['.'];
        assert(dot@ =~= cur_dir());
        let root_dot = comps.len() == 1 && same_chars(&comps[0], &dot);
        proof {
            let c = components(bytes_as_chars(root@));
            if c =~= seq![cur_dir()] {
                assert(c[0] == cur_dir());
            }
            if comps@.len() == 1 && comps@[0]@ == cur_dir() {
                assert(c =~= seq![cur_dir()]);
            }
        }
        let mut k2 = k0;
        if !root_dot && holds_byte_from(bytes, k0, 0x2Fu8) && bytes_at(bytes, k0, &root) {
            let k1 = k0 + root.len();
            let ghost t = p1.subrange(root@.len() as int, p1.len() as int);
            assert(t =~= b.subrange(k1 as int, n as int));
            if k1 < n && bytes[k1] == 0x2Fu8 {
                assert(t.subrange(1, t.len() as int) =~= b.subrange(k1 + 1, n as int));
                k2 = k1 + 1;
            } else {
                k2 = k1;
            }
        }
        assert(stripped_for_lookup(root@, b) =~= b.subrange(k2 as int, n as int));
        !(k2 < n && bytes[k2] == 0x2Fu8)
    }

    /// Whether the path (relative to the repository root) or one of its parent directories
    /// is ignored by the filter's rules.
    pub fn is_ignored(&self, relative_path: &str, is_dir: bool) -> (b: bool)
        requires
            lookup_ok(self.gitignore(), relative_path@),
        ensures
            b == gitignore_ignores(
                gitignore_root(self.gitignore()),
                gitignore_rules(self.gitignore()),
                relative_path@,
                is_dir,
            ),
    {
        matcher_ignores(&self.matcher, relative_path, is_dir)
    }
}

} // verus!
