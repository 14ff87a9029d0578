//! File-system paths as the library sees them: `/`-separated text, taken apart into
//! components the way `std::path::Path` does it on Unix.
use vstd::prelude::*;
use crate::text::{concat_chars, same_chars, views};

verus! {

/// The pieces of `s` between the occurrences of `/`.
pub open spec fn split_slash(s: Seq<char>) -> Seq<Seq<char>>
    decreases s.len(),
{
    if s.len() == 0 {
        seq![s]
    } else if s[0] == '/' {
        seq![Seq::<char>::empty()] + split_slash(s.subrange(1, s.len() as int))
    } else {
        let rest = split_slash(s.subrange(1, s.len() as int));
        rest.update(0, seq![s[0]] + rest[0])
    }
}

/// The root component `/`.
pub open spec fn root_dir() -> Seq<char> {
    seq!['/']
}

/// The current-directory component `.`.
pub open spec fn cur_dir() -> Seq<char> {
    seq!['.']
}

/// The parent-directory component `..`.
pub open spec fn parent_dir() -> Seq<char> {
    seq!['.', '.']
}

/// A component that names a file or directory (not `/`, `.` or `..`).
pub open spec fn is_normal(c: Seq<char>) -> bool {
    c != root_dir() && c != cur_dir() && c != parent_dir()
}

/// The pieces that survive as components: neither empty (a repeated or trailing `/`) nor `.`.
pub open spec fn kept_pieces(pieces: Seq<Seq<char>>) -> Seq<Seq<char>>
    decreases pieces.len(),
{
    if pieces.len() == 0 {
        Seq::empty()
    } else {
        let rest = kept_pieces(pieces.drop_last());
        if pieces.last().len() > 0 && pieces.last() != cur_dir() {
            rest.push(pieces.last())
        } else {
            rest
        }
    }
}

/// The components of a path: `/` first when the path is absolute, `.` first when the path
/// starts with `./` (or is `.`), then every other non-empty piece that is not `.`.
pub open spec fn components(s: Seq<char>) -> Seq<Seq<char>> {
    let pieces = split_slash(s);
    let head = if s.len() > 0 && s[0] == '/' {
        seq![root_dir()]
    } else if pieces[0] == cur_dir() {
        seq![cur_dir()]
    } else {
        Seq::empty()
    };
    head + kept_pieces(pieces)
}

/// The pieces joined with `/` between them.
pub open spec fn join_slash(parts: Seq<Seq<char>>) -> Seq<char>
    decreases parts.len(),
{
    if parts.len() == 0 {
        Seq::empty()
    } else if parts.len() == 1 {
        parts[0]
    } else {
        join_slash(parts.drop_last()) + seq!['/'] + parts.last()
    }
}

/// The path that a list of components spells.
pub open spec fn path_of_components(comps: Seq<Seq<char>>) -> Seq<char> {
    if comps.len() > 0 && comps[0] == root_dir() {
        root_dir() + join_slash(comps.drop_first())
    } else {
        join_slash(comps)
    }
}

/// `rel` appended to `base`, as `Path::join` does: an absolute `rel` replaces `base`, and a
/// separator is put between them when `base` is not empty and does not end with one.
pub open spec fn spec_join(base: Seq<char>, rel: Seq<char>) -> Seq<char> {
    if rel.len() > 0 && rel[0] == '/' {
        rel
    } else if base.len() > 0 && base.last() != '/' {
        base + seq!['/'] + rel
    } else {
        base + rel
    }
}

/// The path without its last component, when that component is a name, `.` or `..`.
pub open spec fn spec_parent(s: Seq<char>) -> Option<Seq<char>> {
    let comps = components(s);
    if comps.len() > 0 && comps.last() != root_dir() {
        Some(path_of_components(comps.drop_last()))
    } else {
        None
    }
}

/// `base` is a component-wise prefix of `path`.
pub open spec fn spec_starts_with(path: Seq<char>, base: Seq<char>) -> bool {
    let p = components(path);
    let b = components(base);
    b.len() <= p.len() && p.subrange(0, b.len() as int) == b
}

/// What is left of `path` after the components of `base`, when `base` is a prefix of it.
pub open spec fn spec_strip_prefix(path: Seq<char>, base: Seq<char>) -> Option<Seq<char>> {
    if spec_starts_with(path, base) {
        let p = components(path);
        Some(join_slash(p.subrange(components(base).len() as int, p.len() as int)))
    } else {
        None
    }
}

/// The index of the last `c` in `s`, or -1.
pub open spec fn last_index_of(s: Seq<char>, c: char) -> int
    decreases s.len(),
{
    if s.len() == 0 {
        -1
    } else if s.last() == c {
        s.len() - 1
    } else {
        last_index_of(s.drop_last(), c)
    }
}

/// A file name without its extension: everything before the last `.`, unless that `.` is
/// the first character.
pub open spec fn file_stem(name: Seq<char>) -> Seq<char> {
    let k = last_index_of(name, '.');
    if k <= 0 {
        name
    } else {
        name.subrange(0, k)
    }
}

/// The extension of a file name: what follows the last `.`, when that `.` is not the first
/// character.
pub open spec fn file_extension(name: Seq<char>) -> Option<Seq<char>> {
    let k = last_index_of(name, '.');
    if k <= 0 {
        None
    } else {
        Some(name.subrange(k + 1, name.len() as int))
    }
}

/// The extension of the path's last component, when that component is a name.
pub open spec fn spec_path_extension(s: Seq<char>) -> Option<Seq<char>> {
    let comps = components(s);
    if comps.len() > 0 && is_normal(comps.last()) {
        file_extension(comps.last())
    } else {
        None
    }
}

/// The outcome of comparing two values.
#[derive(Debug, Clone, Copy, PartialEq, Eq, Structural)]
pub enum Order {
    Less,
    Equal,
    Greater,
}

/// Two character sequences compared lexicographically by code point, as `str` orders them.
pub open spec fn chars_order(a: Seq<char>, b: Seq<char>) -> Order
    decreases a.len(),
{
    if a.len() == 0 {
        if b.len() == 0 {
            Order::Equal
        } else {
            Order::Less
        }
    } else if b.len() == 0 {
        Order::Greater
    } else if (a[0] as u32) < (b[0] as u32) {
        Order::Less
    } else if (a[0] as u32) > (b[0] as u32) {
        Order::Greater
    } else {
        chars_order(a.drop_first(), b.drop_first())
    }
}

/// The rank of a component's variant: the root before `.`, before `..`, before names.
pub open spec fn component_rank(c: Seq<char>) -> int {
    if c == root_dir() {
        1
    } else if c == cur_dir() {
        2
    } else if c == parent_dir() {
        3
    } else {
        4
    }
}

/// Two components compared as `std::path::Component` orders them: by variant, then names by
/// their text.
pub open spec fn component_order(a: Seq<char>, b: Seq<char>) -> Order {
    if component_rank(a) < component_rank(b) {
        Order::Less
    } else if component_rank(a) > component_rank(b) {
        Order::Greater
    } else if component_rank(a) == 4 {
        chars_order(a, b)
    } else {
        Order::Equal
    }
}

/// Two component lists compared lexicographically.
pub open spec fn components_order(a: Seq<Seq<char>>, b: Seq<Seq<char>>) -> Order
    decreases a.len(),
{
    if a.len() == 0 {
        if b.len() == 0 {
            Order::Equal
        } else {
            Order::Less
        }
    } else if b.len() == 0 {
        Order::Greater
    } else if component_order(a[0], b[0]) != Order::Equal {
        component_order(a[0], b[0])
    } else {
        components_order(a.drop_first(), b.drop_first())
    }
}

/// Two paths compared as `Path` orders them: component by component.
pub open spec fn path_order(a: Seq<char>, b: Seq<char>) -> Order {
    components_order(components(a), components(b))
}

/// Compares two character sequences lexicographically.
pub fn compare_chars(a: &Vec<char>, b: &Vec<char>) -> (r: Order)
    ensures
        r == chars_order(a@, b@),
{
    let mut i: usize = 0;
    assert(a@.subrange(0, a.len() as int) =~= a@);
    assert(b@.subrange(0, b.len() as int) =~= b@);
    loop
        invariant
            i <= a.len(),
            i <= b.len(),
            chars_order(a@, b@) == chars_order(
                a@.subrange(i as int, a.len() as int),
                b@.subrange(i as int, b.len() as int),
            ),
        decreases a.len() - i,
    {
        let ghost ta = a@.subrange(i as int, a.len() as int);
        let ghost tb = b@.subrange(i as int, b.len() as int);
        if i == a.len() {
            return if i == b.len() {
                Order::Equal
            } else {
                Order::Less
            };
        }
        if i == b.len() {
            return Order::Greater;
        }
        assert(ta[0] == a@[i as int]);
        assert(tb[0] == b@[i as int]);
        if (a[i] as u32) < (b[i] as u32) {
            return Order::Less;
        }
        if (a[i] as u32) > (b[i] as u32) {
            return Order::Greater;
        }
        assert(ta.drop_first() =~= a@.subrange(i + 1, a.len() as int));
        assert(tb.drop_first() =~= b@.subrange(i + 1, b.len() as int));
        i += 1;
    }
}

fn component_rank_of(c: &Vec<char>) -> (r: u8)
    ensures
        r as int == component_rank(c@),
{
    let root = vec!['/'];
    let dot = vec!['.'];
    let dots = vec!['.', '.'];
    assert(root@ =~= root_dir());
    assert(dot@ =~= cur_dir());
    assert(dots@ =~= parent_dir());
    if same_chars(c, &root) {
        1
    } else if same_chars(c, &dot) {
        2
    } else if same_chars(c, &dots) {
        3
    } else {
        4
    }
}

/// Compares two components.
pub fn compare_component(a: &Vec<char>, b: &Vec<char>) -> (r: Order)
    ensures
        r == component_order(a@, b@),
{
    let ra = component_rank_of(a);
    let rb = component_rank_of(b);
    if ra < rb {
        Order::Less
    } else if ra > rb {
        Order::Greater
    } else if ra == 4 {
        compare_chars(a, b)
    } else {
        Order::Equal
    }
}

/// Compares two paths component by component.
pub fn compare_paths(a: &Vec<char>, b: &Vec<char>) -> (r: Order)
    ensures
        r == path_order(a@, b@),
{
    let ca = path_components(a);
    let cb = path_components(b);
    let ghost va = views(ca@);
    let ghost vb = views(cb@);
    let mut i: usize = 0;
    assert(va.subrange(0, va.len() as int) =~= va);
    assert(vb.subrange(0, vb.len() as int) =~= vb);
    loop
        invariant
            va == views(ca@),
            vb == views(cb@),
            va == components(a@),
            vb == components(b@),
            i <= ca.len(),
            i <= cb.len(),
            path_order(a@, b@) == components_order(
                va.subrange(i as int, va.len() as int),
                vb.subrange(i as int, vb.len() as int),
            ),
        decreases ca.len() - i,
    {
        let ghost ta = va.subrange(i as int, va.len() as int);
        let ghost tb = vb.subrange(i as int, vb.len() as int);
        if i == ca.len() {
            return if i == cb.len() {
                Order::Equal
            } else {
                Order::Less
            };
        }
        if i == cb.len() {
            return Order::Greater;
        }
        assert(ta[0] == ca@[i as int]@);
        assert(tb[0] == cb@[i as int]@);
        let o = compare_component(&ca[i], &cb[i]);
        if o != Order::Equal {
            return o;
        }
        assert(ta.drop_first() =~= va.subrange(i + 1, va.len() as int));
        assert(tb.drop_first() =~= vb.subrange(i + 1, vb.len() as int));
        i += 1;
    }
}

pub proof fn lemma_last_index_bounds(s: Seq<char>, c: char)
    ensures
        -1 <= last_index_of(s, c) < s.len(),
        last_index_of(s, c) >= 0 ==> s[last_index_of(s, c)] == c,
    decreases s.len(),
{
    if s.len() > 0 && s.last() != c {
        lemma_last_index_bounds(s.drop_last(), c);
    }
}

pub proof fn lemma_split_slash_nonempty(s: Seq<char>)
    ensures
        split_slash(s).len() >= 1,
    decreases s.len(),
{
    if s.len() > 0 {
        lemma_split_slash_nonempty(s.subrange(1, s.len() as int));
    }
}

/// The state of a left-to-right split on `/`.
pub open spec fn glue_slash(done: Seq<Seq<char>>, cur: Seq<char>, rest: Seq<Seq<char>>) -> Seq<
    Seq<char>,
> {
    done + seq![cur + rest[0]] + rest.drop_first()
}

/// Splits `s` at every `/`.
pub fn split_on_slash(s: &Vec<char>) -> (parts: Vec<Vec<char>>)
    ensures
        views(parts@) == split_slash(s@),
{
    let mut parts: Vec<Vec<char>> = Vec::new();
    let mut cur: Vec<char> = Vec::new();
    let mut i: usize = 0;
    let n = s.len();
    proof {
        lemma_split_slash_nonempty(s@);
        assert(s@.subrange(0, n as int) =~= s@);
        let r = split_slash(s@);
        assert(glue_slash(Seq::empty(), Seq::empty(), r) =~= r);
    }
    while i < n
        invariant
            n == s.len(),
            i <= n,
            split_slash(s@) == glue_slash(views(parts@), cur@, split_slash(s@.subrange(i as int, n as int))),
        decreases n - i,
    {
        let ghost tail = s@.subrange(i as int, n as int);
        proof {
            assert(tail.subrange(1, tail.len() as int) =~= s@.subrange(i + 1, n as int));
            lemma_split_slash_nonempty(s@.subrange(i + 1, n as int));
        }
        if s[i] == '/' {
            let ghost before = views(parts@);
            let done_piece = cur;
            cur = Vec::new();
            parts.push(done_piece);
            assert(views(parts@) =~= before.push(done_piece@));
            assert(glue_slash(before, done_piece@, split_slash(tail)) =~= glue_slash(
                views(parts@),
                Seq::empty(),
                split_slash(s@.subrange(i + 1, n as int)),
            ));
        } else {
            proof {
                let r = split_slash(s@.subrange(i + 1, n as int));
                let c = s@[i as int];
                assert(split_slash(tail) == r.update(0, seq![c] + r[0]));
                assert(cur@ + (seq![c] + r[0]) =~= cur@.push(c) + r[0]);
                assert(r.update(0, seq![c] + r[0]).drop_first() =~= r.drop_first());
            }
            cur.push(s[i]);
        }
        i += 1;
    }
    proof {
        assert(s@.subrange(n as int, n as int) =~= Seq::<char>::empty());
    }
    let ghost before = views(parts@);
    let ghost last = cur@;
    parts.push(cur);
    assert(views(parts@) =~= before.push(last));
    assert(views(parts@) =~= glue_slash(before, last, seq![Seq::<char>::empty()]));
    parts
}

/// The components of the path `s`.
pub fn path_components(s: &Vec<char>) -> (comps: Vec<Vec<char>>)
    ensures
        views(comps@) == components(s@),
{
    let pieces = split_on_slash(s);
    proof {
        lemma_split_slash_nonempty(s@);
    }
    let mut comps: Vec<Vec<char>> = Vec::new();
    let dot = vec!['.'];
    assert(dot@ =~= cur_dir());
    if s.len() > 0 && s[0] == '/' {
        let root = vec!['/'];
        assert(root@ =~= root_dir());
        comps.push(root);
    } else if same_chars(&pieces[0], &dot) {
        comps.push(dot.clone());
    }
    let ghost head = views(comps@);
    assert(head + kept_pieces(views(pieces@).take(0)) =~= head);
    let mut k: usize = 0;
    while k < pieces.len()
        invariant
            k <= pieces.len(),
            dot@ == cur_dir(),
            views(comps@) == head + kept_pieces(views(pieces@).take(k as int)),
        decreases pieces.len() - k,
    {
        let ghost vs = views(pieces@);
        assert(vs.take(k + 1).drop_last() =~= vs.take(k as int));
        assert(vs.take(k + 1).last() == vs[k as int]);
        if pieces[k].len() > 0 && !same_chars(&pieces[k], &dot) {
            let ghost before = views(comps@);
            comps.push(pieces[k].clone());
            assert(views(comps@) =~= before.push(vs[k as int]));
        }
        k += 1;
    }
    assert(views(pieces@).take(pieces.len() as int) =~= views(pieces@));
    comps
}

/// The pieces joined with `/`.
pub fn join_with_slash(parts: &Vec<Vec<char>>, from: usize) -> (r: Vec<char>)
    requires
        from <= parts.len(),
    ensures
        r@ == join_slash(views(parts@).subrange(from as int, parts.len() as int)),
{
    let mut r: Vec<char> = Vec::new();
    let mut k: usize = from;
    let ghost all = views(parts@);
    assert(all.subrange(from as int, from as int) =~= Seq::<Seq<char>>::empty());
    while k < parts.len()
        invariant
            from <= k <= parts.len(),
            all == views(parts@),
            r@ == join_slash(all.subrange(from as int, k as int)),
        decreases parts.len() - k,
    {
        assert(all.subrange(from as int, k + 1).drop_last() =~= all.subrange(from as int, k as int));
        if k == from {
            r = parts[k].clone();
        } else {
            r.push('/');
            r = concat_chars(&r, &parts[k]);
        }
        k += 1;
    }
    r
}

/// The path spelled by a list of components.
pub fn path_from_components(comps: &Vec<Vec<char>>) -> (r: Vec<char>)
    ensures
        r@ == path_of_components(views(comps@)),
{
    let root = vec!['/'];
    assert(root@ =~= root_dir());
    if comps.len() > 0 && same_chars(&comps[0], &root) {
        assert(views(comps@).subrange(1, comps.len() as int) =~= views(comps@).drop_first());
        concat_chars(&root, &join_with_slash(comps, 1))
    } else {
        assert(views(comps@).subrange(0, comps.len() as int) =~= views(comps@));
        join_with_slash(comps, 0)
    }
}

/// `rel` appended to `base`.
pub fn join_paths(base: &Vec<char>, rel: &Vec<char>) -> (r: Vec<char>)
    ensures
        r@ == spec_join(base@, rel@),
{
    if rel.len() > 0 && rel[0] == '/' {
        rel.clone()
    } else if base.len() > 0 && base[base.len() - 1] != '/' {
        let mut b = base.clone();
        b.push('/');
        concat_chars(&b, rel)
    } else {
        concat_chars(base, rel)
    }
}

/// The parent of the path, when it has one.
pub fn path_parent(s: &Vec<char>) -> (r: Option<Vec<char>>)
    ensures
        r matches Some(p) ==> spec_parent(s@) == Some(p@),
        r is None ==> spec_parent(s@) is None,
{
    let mut comps = path_components(s);
    let root = vec!['/'];
    assert(root@ =~= root_dir());
    if comps.len() == 0 || same_chars(&comps[comps.len() - 1], &root) {
        return None;
    }
    let ghost all = views(comps@);
    comps.pop();
    assert(views(comps@) =~= all.drop_last());
    Some(path_from_components(&comps))
}

/// Whether the components of `base` begin the components of `path`.
pub fn path_starts_with(path: &Vec<char>, base: &Vec<char>) -> (b: bool)
    ensures
        b == spec_starts_with(path@, base@),
{
    let p = path_components(path);
    let bc = path_components(base);
    if bc.len() > p.len() {
        return false;
    }
    let mut k: usize = 0;
    while k < bc.len()
        invariant
            bc.len() <= p.len(),
            k <= bc.len(),
            views(p@) == components(path@),
            views(bc@) == components(base@),
            forall|j: int| 0 <= j < k ==> views(p@)[j] == views(bc@)[j],
        decreases bc.len() - k,
    {
        if !same_chars(&p[k], &bc[k]) {
            assert(views(p@).subrange(0, bc.len() as int)[k as int] != views(bc@)[k as int]);
            assert(views(p@).subrange(0, bc.len() as int) != views(bc@));
            return false;
        }
        k += 1;
    }
    assert(views(p@).subrange(0, bc.len() as int) =~= views(bc@));
    true
}

/// What is left of `path` after `base`, when `base` begins it.
pub fn path_strip_prefix(path: &Vec<char>, base: &Vec<char>) -> (r: Option<Vec<char>>)
    ensures
        r matches Some(rest) ==> spec_strip_prefix(path@, base@) == Some(rest@),
        r is None ==> spec_strip_prefix(path@, base@) is None,
{
    if !path_starts_with(path, base) {
        return None;
    }
    let p = path_components(path);
    let bc = path_components(base);
    Some(join_with_slash(&p, bc.len()))
}

/// The index of the last `c` in `s`, or `None`.
pub fn last_index(s: &Vec<char>, c: char) -> (r: Option<usize>)
    ensures
        r matches Some(k) ==> last_index_of(s@, c) == k as int,
        r is None ==> last_index_of(s@, c) == -1,
{
    let mut k = s.len();
    assert(s@.subrange(0, k as int) =~= s@);
    while k > 0
        invariant
            k <= s.len(),
            last_index_of(s@, c) == last_index_of(s@.subrange(0, k as int), c),
        decreases k,
    {
        let ghost pre = s@.subrange(0, k as int);
        assert(pre.drop_last() =~= s@.subrange(0, k - 1));
        if s[k - 1] == c {
            return Some(k - 1);
        }
        k -= 1;
    }
    None
}

/// The file name without its extension.
pub fn stem_of(name: &Vec<char>) -> (r: Vec<char>)
    ensures
        r@ == file_stem(name@),
{
    proof {
        lemma_last_index_bounds(name@, '.');
    }
    match last_index(name, '.') {
        Some(k) if k > 0 => {
            let mut r: Vec<char> = Vec::new();
            let mut i: usize = 0;
            while i < k
                invariant
                    k <= name.len(),
                    i <= k,
                    r@ == name@.subrange(0, i as int),
                decreases k - i,
            {
                r.push(name[i]);
                i += 1;
                assert(r@ =~= name@.subrange(0, i as int));
            }
            r
        },
        _ => name.clone(),
    }
}

/// Whether a component is a name rather than `/`, `.` or `..`.
pub fn is_normal_component(c: &Vec<char>) -> (b: bool)
    ensures
        b == is_normal(c@),
{
    let root = vec!['/'];
    let dot = vec!['.'];
    let dots = vec!['.', '.'];
    assert(root@ =~= root_dir());
    assert(dot@ =~= cur_dir());
    assert(dots@ =~= parent_dir());
    !same_chars(c, &root) && !same_chars(c, &dot) && !same_chars(c, &dots)
}

/// Whether the path names a file with the extension `rs`.
pub fn has_rs_extension(path: &Vec<char>) -> (b: bool)
    ensures
        b == (spec_path_extension(path@) == Some(seq!['r', 's'])),
{
    let comps = path_components(path);
    if comps.len() == 0 || !is_normal_component(&comps[comps.len() - 1]) {
        return false;
    }
    let name = &comps[comps.len() - 1];
    proof {
        lemma_last_index_bounds(name@, '.');
    }
    match last_index(name, '.') {
        Some(k) if k > 0 => {
            let ghost ext = name@.subrange(k + 1, name.len() as int);
            if name.len() - k == 3 && name[k + 1] == 'r' && name[k + 2] == 's' {
                assert(ext =~= seq!['r', 's']);
                true
            } else {
                assert(ext != seq!['r', 's']) by {
                    if ext.len() == 2 {
                        assert(ext[0] == name@[k + 1]);
                        assert(ext[1] == name@[k + 2]);
                    }
                }
                false
            }
        },
        _ => false,
    }
}


/// The outcome of comparing the other way round.
pub open spec fn flip(o: Order) -> Order {
    match o {
        Order::Less => Order::Greater,
        Order::Equal => Order::Equal,
        Order::Greater => Order::Less,
    }
}

/// `chars_order` is a total order: swapping the arguments flips the outcome, the outcome
/// is `Equal` exactly on equal sequences, and `Less` chains.
pub proof fn lemma_chars_order_total(a: Seq<char>, b: Seq<char>, c: Seq<char>)
    ensures
        chars_order(b, a) == flip(chars_order(a, b)),
        chars_order(a, b) == Order::Equal <==> a == b,
        chars_order(a, b) == Order::Less && chars_order(b, c) == Order::Less ==> chars_order(a, c)
            == Order::Less,
    decreases a.len(),
{
    if a.len() > 0 && b.len() > 0 {
        let c1 = if c.len() > 0 {
            c.drop_first()
        } else {
            c
        };
        lemma_chars_order_total(a.drop_first(), b.drop_first(), c1);
        if (a[0] as u32) == (b[0] as u32) && a.drop_first() == b.drop_first() {
            vstd::utf8::char_u32_cast(a[0], a[0] as u32);
            vstd::utf8::char_u32_cast(b[0], b[0] as u32);
            assert(a[0] == b[0]);
            assert forall|i: int| 0 <= i < a.len() implies a[i] == b[i] by {
                if i > 0 {
                    assert(a[i] == a.drop_first()[i - 1]);
                    assert(b[i] == b.drop_first()[i - 1]);
                }
            }
            assert(a =~= b);
        }
    } else if a.len() == 0 && b.len() == 0 {
        assert(a =~= b);
    }
}

/// `component_order` is a total preorder: swapping the arguments flips the outcome, either
/// side of an `Equal` outcome can stand for the other, and `Less` chains.
pub proof fn lemma_component_order_total(a: Seq<char>, b: Seq<char>, c: Seq<char>)
    ensures
        component_order(b, a) == flip(component_order(a, b)),
        component_order(a, b) == Order::Equal ==> component_order(a, c) == component_order(b, c),
        component_order(b, c) == Order::Equal ==> component_order(a, c) == component_order(a, b),
        component_order(a, b) == Order::Less && component_order(b, c) == Order::Less
            ==> component_order(a, c) == Order::Less,
{
    lemma_chars_order_total(a, b, c);
    lemma_chars_order_total(b, c, a);
    lemma_chars_order_total(a, c, b);
}

/// `components_order` is a total preorder, as `component_order` is.
pub proof fn lemma_components_order_total(a: Seq<Seq<char>>, b: Seq<Seq<char>>, c: Seq<Seq<char>>)
    ensures
        components_order(b, a) == flip(components_order(a, b)),
        components_order(a, b) == Order::Equal ==> components_order(a, c) == components_order(b, c),
        components_order(b, c) == Order::Equal ==> components_order(a, c) == components_order(a, b),
        components_order(a, b) == Order::Less && components_order(b, c) == Order::Less
            ==> components_order(a, c) == Order::Less,
    decreases a.len() + b.len() + c.len(),
{
    if a.len() > 0 && b.len() > 0 && c.len() > 0 {
        lemma_component_order_total(a[0], b[0], c[0]);
        lemma_components_order_total(a.drop_first(), b.drop_first(), c.drop_first());
    } else if a.len() > 0 && b.len() > 0 {
        lemma_component_order_total(a[0], b[0], a[0]);
        lemma_components_order_total(a.drop_first(), b.drop_first(), c);
    }
}

/// `path_order` is a total preorder, as `components_order` is.
pub proof fn lemma_path_order_total(a: Seq<char>, b: Seq<char>, c: Seq<char>)
    ensures
        path_order(b, a) == flip(path_order(a, b)),
        path_order(a, b) == Order::Equal ==> path_order(a, c) == path_order(b, c),
        path_order(b, c) == Order::Equal ==> path_order(a, c) == path_order(a, b),
        path_order(a, b) == Order::Less && path_order(b, c) == Order::Less ==> path_order(a, c)
            == Order::Less,
{
    lemma_components_order_total(components(a), components(b), components(c));
}


/// `s` holds no `/`.
pub open spec fn slash_free(s: Seq<char>) -> bool {
    forall|i: int| 0 <= i < s.len() ==> s[i] != '/'
}

/// A piece that survives as a component: not empty, no `/` in it, and not `.`.
pub open spec fn is_kept_piece(c: Seq<char>) -> bool {
    c.len() > 0 && slash_free(c) && c != cur_dir()
}

/// Splitting at a `/` splits the two sides separately.
proof fn lemma_split_slash_concat(a: Seq<char>, b: Seq<char>)
    ensures
        split_slash(a + seq!['/'] + b) == split_slash(a) + split_slash(b),
    decreases a.len(),
{
    let s = a + seq!['/'] + b;
    lemma_split_slash_nonempty(b);
    if a.len() == 0 {
        assert(s.subrange(1, s.len() as int) =~= b);
        assert(split_slash(a) == seq![a]);
        assert(a =~= Seq::<char>::empty());
        assert(split_slash(s) =~= split_slash(a) + split_slash(b));
    } else {
        let a1 = a.subrange(1, a.len() as int);
        lemma_split_slash_concat(a1, b);
        lemma_split_slash_nonempty(a1);
        assert(s.subrange(1, s.len() as int) =~= a1 + seq!['/'] + b);
        assert(s[0] == a[0]);
        if a[0] == '/' {
            assert(split_slash(s) =~= split_slash(a) + split_slash(b));
        } else {
            assert(split_slash(s) =~= split_slash(a) + split_slash(b));
        }
    }
}

/// The pieces of a split hold no `/`.
proof fn lemma_split_slash_free(s: Seq<char>)
    ensures
        forall|k: int| 0 <= k < split_slash(s).len() ==> slash_free(#[trigger] split_slash(s)[k]),
    decreases s.len(),
{
    if s.len() > 0 {
        let s1 = s.subrange(1, s.len() as int);
        lemma_split_slash_free(s1);
        lemma_split_slash_nonempty(s1);
        if s[0] != '/' {
            let rest = split_slash(s1);
            let first = seq![s[0]] + rest[0];
            assert(slash_free(rest[0]));
            assert forall|i: int| 0 <= i < first.len() implies first[i] != '/' by {
                if i > 0 {
                    assert(first[i] == rest[0][i - 1]);
                }
            }
            assert forall|k: int| 0 <= k < split_slash(s).len() implies slash_free(
                #[trigger] split_slash(s)[k],
            ) by {
                if k > 0 {
                    assert(split_slash(s)[k] == rest[k]);
                }
            }
        } else {
            assert forall|k: int| 0 <= k < split_slash(s).len() implies slash_free(
                #[trigger] split_slash(s)[k],
            ) by {
                if k > 0 {
                    assert(split_slash(s)[k] == split_slash(s1)[k - 1]);
                }
            }
        }
    }
}

/// A piece with no `/` splits into itself alone.
proof fn lemma_split_slash_word(w: Seq<char>)
    requires
        slash_free(w),
    ensures
        split_slash(w) == seq![w],
    decreases w.len(),
{
    if w.len() > 0 {
        let w1 = w.subrange(1, w.len() as int);
        lemma_split_slash_word(w1);
        assert(seq![w[0]] + w1 =~= w);
    } else {
        assert(w =~= Seq::<char>::empty());
    }
}

/// Dropping pieces is done piece by piece.
proof fn lemma_kept_pieces_concat(p: Seq<Seq<char>>, q: Seq<Seq<char>>)
    ensures
        kept_pieces(p + q) == kept_pieces(p) + kept_pieces(q),
    decreases q.len(),
{
    if q.len() == 0 {
        assert(p + q =~= p);
        assert(kept_pieces(q) =~= Seq::<Seq<char>>::empty());
        assert(kept_pieces(p) + kept_pieces(q) =~= kept_pieces(p));
    } else {
        lemma_kept_pieces_concat(p, q.drop_last());
        assert((p + q).drop_last() =~= p + q.drop_last());
        if q.last().len() > 0 && q.last() != cur_dir() {
            assert(kept_pieces(p + q) =~= kept_pieces(p) + kept_pieces(q));
        } else {
            assert(kept_pieces(p + q) =~= kept_pieces(p) + kept_pieces(q));
        }
    }
}

/// A single piece survives exactly when it is neither empty nor `.`.
proof fn lemma_kept_one(w: Seq<char>)
    ensures
        kept_pieces(seq![w]) == if w.len() > 0 && w != cur_dir() {
            seq![w]
        } else {
            Seq::<Seq<char>>::empty()
        },
{
    assert(seq![w].drop_last() =~= Seq::<Seq<char>>::empty());
    assert(seq![w].last() == w);
    assert(kept_pieces(Seq::<Seq<char>>::empty()) == Seq::<Seq<char>>::empty());
    if w.len() > 0 && w != cur_dir() {
        assert(Seq::<Seq<char>>::empty().push(w) =~= seq![w]);
    }
}

/// Pieces that all survive are kept as they are; the kept pieces of anything survive.
proof fn lemma_kept_pieces_shape(p: Seq<Seq<char>>)
    ensures
        (forall|k: int| 0 <= k < p.len() ==> is_kept_piece(#[trigger] p[k])) ==> kept_pieces(p)
            == p,
        (forall|k: int| 0 <= k < p.len() ==> slash_free(#[trigger] p[k])) ==> forall|k: int|
            0 <= k < kept_pieces(p).len() ==> is_kept_piece(#[trigger] kept_pieces(p)[k]),
    decreases p.len(),
{
    if p.len() > 0 {
        lemma_kept_pieces_shape(p.drop_last());
        if forall|k: int| 0 <= k < p.len() ==> is_kept_piece(#[trigger] p[k]) {
            assert(is_kept_piece(p.last()));
            assert forall|k: int| 0 <= k < p.drop_last().len() implies is_kept_piece(
                #[trigger] p.drop_last()[k],
            ) by {
                assert(p.drop_last()[k] == p[k]);
            }
            assert(kept_pieces(p) =~= p);
        }
        if forall|k: int| 0 <= k < p.len() ==> slash_free(#[trigger] p[k]) {
            assert forall|k: int| 0 <= k < p.drop_last().len() implies slash_free(
                #[trigger] p.drop_last()[k],
            ) by {
                assert(p.drop_last()[k] == p[k]);
            }
            assert(slash_free(p.last()));
            let before = kept_pieces(p.drop_last());
            assert forall|k: int| 0 <= k < kept_pieces(p).len() implies is_kept_piece(
                #[trigger] kept_pieces(p)[k],
            ) by {
                if k < before.len() {
                    assert(kept_pieces(p)[k] == before[k]);
                }
            }
        }
    } else {
        assert(kept_pieces(p) =~= p);
    }
}


/// A `/` at the end of a non-empty path changes none of its components, and what follows
/// a `/` adds its surviving pieces as components.
proof fn lemma_components_after_slash(a: Seq<char>, b: Seq<char>)
    ensures
        components(a + seq!['/'] + b) == components(a + seq!['/']) + kept_pieces(split_slash(b)),
        a.len() > 0 ==> components(a + seq!['/']) == components(a),
{
    let s = a + seq!['/'] + b;
    let t = a + seq!['/'];
    assert(t =~= a + seq!['/'] + Seq::<char>::empty());
    lemma_split_slash_concat(a, b);
    lemma_split_slash_concat(a, Seq::<char>::empty());
    lemma_split_slash_nonempty(a);
    assert(split_slash(Seq::<char>::empty()) == seq![Seq::<char>::empty()]);
    lemma_kept_pieces_concat(split_slash(a), split_slash(b));
    lemma_kept_pieces_concat(split_slash(a), seq![Seq::<char>::empty()]);
    lemma_kept_one(Seq::<char>::empty());
    assert(kept_pieces(split_slash(a)) + Seq::<Seq<char>>::empty() =~= kept_pieces(split_slash(a)));
    assert(s[0] == t[0]);
    assert(split_slash(s)[0] == split_slash(t)[0]);
    if a.len() > 0 {
        assert(t[0] == a[0]);
        assert(split_slash(t)[0] == split_slash(a)[0]);
    }
    assert(components(s) =~= components(t) + kept_pieces(split_slash(b)));
}

/// Joining pieces with no `/` in them and splitting again gives the pieces back; the join
/// begins with the first piece.
proof fn lemma_split_join_slash(parts: Seq<Seq<char>>)
    requires
        parts.len() >= 1,
        forall|k: int| 0 <= k < parts.len() ==> slash_free(#[trigger] parts[k]),
    ensures
        split_slash(join_slash(parts)) == parts,
        parts[0].len() <= join_slash(parts).len(),
        join_slash(parts).subrange(0, parts[0].len() as int) == parts[0],
    decreases parts.len(),
{
    let j = join_slash(parts);
    if parts.len() == 1 {
        lemma_split_slash_word(parts[0]);
        assert(j.subrange(0, parts[0].len() as int) =~= parts[0]);
        assert(split_slash(j) =~= parts);
    } else {
        let init = parts.drop_last();
        assert forall|k: int| 0 <= k < init.len() implies slash_free(#[trigger] init[k]) by {
            assert(init[k] == parts[k]);
        }
        lemma_split_join_slash(init);
        lemma_split_slash_word(parts.last());
        lemma_split_slash_concat(join_slash(init), parts.last());
        assert(split_slash(j) =~= parts);
        assert(j.subrange(0, parts[0].len() as int) =~= join_slash(init).subrange(
            0,
            parts[0].len() as int,
        ));
    }
}

/// Joining a first piece before a non-empty list puts a `/` between them.
proof fn lemma_join_slash_front(w: Seq<char>, q: Seq<Seq<char>>)
    requires
        q.len() >= 1,
    ensures
        join_slash(seq![w] + q) == w + seq!['/'] + join_slash(q),
    decreases q.len(),
{
    let p = seq![w] + q;
    if q.len() == 1 {
        assert(p.drop_last() =~= seq![w]);
        assert(p.last() == q[0]);
        assert(join_slash(seq![w]) == w);
        assert(join_slash(q) == q[0]);
    } else {
        lemma_join_slash_front(w, q.drop_last());
        assert(p.drop_last() =~= seq![w] + q.drop_last());
        assert(p.last() == q.last());
        assert(join_slash(p) == join_slash(p.drop_last()) + seq!['/'] + p.last());
        assert(join_slash(p) =~= w + seq!['/'] + join_slash(q));
    }
}

/// A component list: the root or `.` may come first, every other component is a surviving
/// piece.
pub open spec fn components_shaped(c: Seq<Seq<char>>) -> bool {
    forall|k: int|
        0 <= k < c.len() ==> is_kept_piece(#[trigger] c[k]) || (k == 0 && (c[k] == root_dir()
            || c[k] == cur_dir()))
}

proof fn lemma_components_shaped(s: Seq<char>)
    ensures
        components_shaped(components(s)),
        s.len() > 0 ==> components(s).len() > 0,
{
    let pieces = split_slash(s);
    lemma_split_slash_free(s);
    lemma_kept_pieces_shape(pieces);
    lemma_split_slash_nonempty(s);
    let c = components(s);
    let kept = kept_pieces(pieces);
    let head_len = c.len() - kept.len();
    assert forall|k: int| 0 <= k < c.len() implies is_kept_piece(#[trigger] c[k]) || (k == 0 && (
    c[k] == root_dir() || c[k] == cur_dir())) by {
        if k >= head_len {
            assert(c[k] == kept[k - head_len]);
        }
    }
    if s.len() > 0 && s[0] != '/' && pieces[0] != cur_dir() {
        let s1 = s.subrange(1, s.len() as int);
        lemma_split_slash_nonempty(s1);
        assert(pieces[0].len() > 0);
        assert(is_kept_piece(pieces[0]));
        assert(pieces =~= seq![pieces[0]] + pieces.drop_first());
        lemma_kept_pieces_concat(seq![pieces[0]], pieces.drop_first());
        lemma_kept_one(pieces[0]);
    }
}

/// The components of the path spelled by a component list are that list again.
pub proof fn lemma_components_of_join(c: Seq<Seq<char>>)
    requires
        components_shaped(c),
    ensures
        components(join_slash(c)) == c,
{
    let e = Seq::<char>::empty();
    if c.len() == 0 {
        assert(split_slash(e) == seq![e]);
        lemma_kept_one(e);
        assert(components(e) =~= c);
    } else {
        let rest = c.drop_first();
        assert forall|k: int| 0 <= k < rest.len() implies is_kept_piece(#[trigger] rest[k]) by {
            assert(rest[k] == c[k + 1]);
        }
        assert forall|k: int| 0 <= k < rest.len() implies slash_free(#[trigger] rest[k]) by {
            assert(is_kept_piece(rest[k]));
        }
        lemma_kept_pieces_shape(rest);
        if c[0] == root_dir() || c[0] == cur_dir() {
            let a = c[0];
            if rest.len() == 0 {
                assert(c =~= seq![a]);
                assert(join_slash(c) == a);
                if a == root_dir() {
                    assert(a =~= e + seq!['/'] + e);
                    lemma_split_slash_concat(e, e);
                    lemma_kept_one(e);
                    assert(seq![e, e] =~= seq![e] + seq![e]);
                    lemma_kept_pieces_concat(seq![e], seq![e]);
                } else {
                    lemma_split_slash_word(a);
                    lemma_kept_one(a);
                }
                assert(components(join_slash(c)) =~= c);
            } else {
                assert(c =~= seq![a] + rest);
                lemma_join_slash_front(a, rest);
                lemma_components_after_slash(a, join_slash(rest));
                lemma_split_join_slash(rest);
                if a == root_dir() {
                    assert(a + seq!['/'] =~= e + seq!['/'] + (e + seq!['/'] + e));
                    lemma_split_slash_concat(e, e);
                    lemma_split_slash_concat(e, e + seq!['/'] + e);
                    lemma_kept_one(e);
                    assert(split_slash(a + seq!['/']) =~= seq![e] + (seq![e] + seq![e]));
                    lemma_kept_pieces_concat(seq![e], seq![e]);
                    lemma_kept_pieces_concat(seq![e], seq![e] + seq![e]);
                    assert(components(a + seq!['/']) =~= seq![a]);
                } else {
                    assert(a + seq!['/'] =~= a + seq!['/'] + e);
                    lemma_split_slash_concat(a, e);
                    lemma_split_slash_word(a);
                    lemma_kept_one(a);
                    lemma_kept_one(e);
                    assert(split_slash(a + seq!['/']) =~= seq![a] + seq![e]);
                    lemma_kept_pieces_concat(seq![a], seq![e]);
                    assert(components(a + seq!['/']) =~= seq![a]);
                }
                assert(components(join_slash(c)) =~= c);
            }
        } else {
            assert forall|k: int| 0 <= k < c.len() implies is_kept_piece(#[trigger] c[k]) by {}
            assert forall|k: int| 0 <= k < c.len() implies slash_free(#[trigger] c[k]) by {
                assert(is_kept_piece(c[k]));
            }
            lemma_kept_pieces_shape(c);
            lemma_split_join_slash(c);
            let j = join_slash(c);
            assert(j[0] == c[0][0]);
            assert(components(j) =~= c);
        }
    }
}


/// Appending a relative path to a non-empty base adds the relative path's surviving pieces
/// to the base's components.
proof fn lemma_components_of_spec_join(base: Seq<char>, rel: Seq<char>)
    requires
        base.len() > 0,
        !(rel.len() > 0 && rel[0] == '/'),
    ensures
        components(spec_join(base, rel)) == components(base) + kept_pieces(split_slash(rel)),
{
    if base.last() != '/' {
        lemma_components_after_slash(base, rel);
    } else {
        let a = base.drop_last();
        assert(base =~= a + seq!['/']);
        assert(base + rel =~= a + seq!['/'] + rel);
        lemma_components_after_slash(a, rel);
    }
}

/// What `strip_prefix` leaves of a path under `root`, put back under `root` (or taken as it
/// is when it is absolute), has the path's own components.
pub proof fn lemma_strip_then_join(root: Seq<char>, f: Seq<char>)
    requires
        spec_starts_with(f, root),
    ensures
        spec_strip_prefix(f, root) is Some,
        ({
            let stored = spec_strip_prefix(f, root)->0;
            let back = if stored.len() > 0 && stored[0] == '/' {
                stored
            } else {
                spec_join(root, stored)
            };
            components(back) == components(f)
        }),
{
    let c = components(f);
    let b = components(root).len() as int;
    let rest = c.subrange(b, c.len() as int);
    let stored = join_slash(rest);
    lemma_components_shaped(f);
    lemma_components_shaped(root);
    assert(c =~= c.subrange(0, b) + rest);
    if root.len() > 0 {
        assert forall|k: int| 0 <= k < rest.len() implies is_kept_piece(#[trigger] rest[k]) by {
            assert(rest[k] == c[k + b]);
        }
        lemma_kept_pieces_shape(rest);
        if rest.len() == 0 {
            assert(stored == Seq::<char>::empty());
            assert(split_slash(stored) == seq![stored]);
            lemma_kept_one(stored);
            lemma_components_of_spec_join(root, stored);
            assert(components(spec_join(root, stored)) =~= components(root));
        } else {
            assert forall|k: int| 0 <= k < rest.len() implies slash_free(#[trigger] rest[k]) by {
                assert(is_kept_piece(rest[k]));
            }
            lemma_split_join_slash(rest);
            assert(stored[0] == stored.subrange(0, rest[0].len() as int)[0]);
            assert(stored[0] == rest[0][0]);
            lemma_components_of_spec_join(root, stored);
        }
    } else {
        assert(root =~= Seq::<char>::empty());
        assert(split_slash(root) == seq![root]);
        lemma_kept_one(root);
        assert(components(root) =~= Seq::<Seq<char>>::empty());
        assert(rest =~= c);
        lemma_components_of_join(c);
        assert(spec_join(root, stored) =~= stored);
    }
}


/// A name with no `/` and no `.` in it.
pub open spec fn is_plain_name(n: Seq<char>) -> bool {
    n.len() > 0 && forall|j: int| 0 <= j < n.len() ==> #[trigger] n[j] != '/' && n[j] != '.'
}

/// The extension `.rs`.
pub open spec fn rs_ext() -> Seq<char> {
    seq!['.', 'r', 's']
}

/// A plain name with `.rs` after it is a component whose stem is the name.
pub proof fn lemma_plain_name_rs(n: Seq<char>)
    requires
        is_plain_name(n),
    ensures
        is_kept_piece(n),
        is_kept_piece(n + rs_ext()),
        is_normal(n + rs_ext()),
        file_stem(n + rs_ext()) == n,
{
    let w = n + rs_ext();
    assert(n != cur_dir()) by {
        if n == cur_dir() {
            assert(n[0] == '.');
        }
    }
    assert(slash_free(n));
    assert forall|i: int| 0 <= i < w.len() implies w[i] != '/' by {
        if i >= n.len() {
            assert(w[i] == rs_ext()[i - n.len()]);
        }
    }
    assert(w.len() > 2);
    assert(w != cur_dir() && w != root_dir() && w != parent_dir()) by {
        if w == cur_dir() || w == root_dir() || w == parent_dir() {
            assert(w.len() <= 2);
        }
    }
    let w1 = w.drop_last();
    let w2 = w1.drop_last();
    assert(w.last() == 's');
    assert(w1.last() == 'r');
    assert(w2 =~= n + seq!['.']);
    assert(w2.last() == '.');
    assert(last_index_of(w2, '.') == n.len());
    assert(last_index_of(w1, '.') == last_index_of(w2, '.'));
    assert(last_index_of(w, '.') == last_index_of(w1, '.'));
    assert(w.subrange(0, n.len() as int) =~= n);
}


/// The last component of a path when it names a file or directory, as `Path::file_name`
/// gives it: none for a path that is empty or ends in `/` alone, `.` or `..`.
pub open spec fn spec_file_name(path: Seq<char>) -> Option<Seq<char>> {
    let c = components(path);
    if c.len() > 0 && is_normal(c.last()) {
        Some(c.last())
    } else {
        None
    }
}

/// The last component of a path when it names a file or directory.
pub fn file_name_of(path: &Vec<char>) -> (r: Option<Vec<char>>)
    ensures
        match r {
            Some(v) => spec_file_name(path@) == Some(v@),
            None => spec_file_name(path@) is None,
        },
{
    let comps = path_components(path);
    let n = comps.len();
    if n > 0 && is_normal_component(&comps[n - 1]) {
        Some(comps[n - 1].clone())
    } else {
        None
    }
}

} // verus!
