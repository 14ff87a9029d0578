//! Character-sequence helpers shared by the naming and path logic.
use vstd::prelude::*;
use vstd::std_specs::iter::IteratorSpec;

verus! {

/// `s` begins with `p`.
pub open spec fn has_prefix(s: Seq<char>, p: Seq<char>) -> bool {
    p.len() <= s.len() && s.subrange(0, p.len() as int) == p
}

/// The two-character separator `::` of Rust paths.
pub open spec fn dcolon() -> Seq<char> {
    seq![':', ':']
}

/// The pieces of `s` between the occurrences of `::`, found from the left without overlap,
/// as `str::split("::")` yields them.
pub open spec fn split_dc(s: Seq<char>) -> Seq<Seq<char>>
    decreases s.len(),
{
    if s.len() < 2 {
        seq![s]
    } else if s[0] == ':' && s[1] == ':' {
        seq![Seq::<char>::empty()] + split_dc(s.subrange(2, s.len() as int))
    } else {
        let rest = split_dc(s.subrange(1, s.len() as int));
        rest.update(0, seq![s[0]] + rest[0])
    }
}

/// The pieces joined with `::` between them, as `[String]::join("::")` does.
pub open spec fn join_dc(parts: Seq<Seq<char>>) -> Seq<char>
    decreases parts.len(),
{
    if parts.len() == 0 {
        Seq::empty()
    } else if parts.len() == 1 {
        parts[0]
    } else {
        join_dc(parts.drop_last()) + dcolon() + parts.last()
    }
}

/// The characters of `s`, read one by one through `str::chars`.
pub(crate) fn chars_of(s: &str) -> (v: Vec<char>)
    ensures
        v@ == s@,
{
    broadcast use vstd::string::axiom_spec_iter, vstd::string::next_postcondition;

    let mut it = s.chars();
    let mut v: Vec<char> = Vec::new();
    assert(v@ + it.remaining() =~= s@);
    loop
        invariant
            v@ + it.remaining() == s@,
            it.obeys_prophetic_iter_laws(),
        decreases s@.len() - v@.len(),
    {
        let ghost before = it.remaining();
        match it.next() {
            Some(c) => {
                assert(before.len() > 0);
                v.push(c);
                assert(v@ + it.remaining() =~= s@);
            },
            None => {
                assert(before.len() == 0);
                assert(v@ =~= s@);
                return v;
            },
        }
    }
}

/// The `String` made of the characters of `v`, through `Iterator::collect`.
#[verifier::external_body]
pub(crate) fn string_of(v: &[char]) -> (s: String)
    ensures
        s@ == v@,
{
    v.iter().collect()
}

pub proof fn lemma_split_dc_nonempty(s: Seq<char>)
    ensures
        split_dc(s).len() >= 1,
    decreases s.len(),
{
    if s.len() >= 2 {
        if s[0] == ':' && s[1] == ':' {
            lemma_split_dc_nonempty(s.subrange(2, s.len() as int));
        } else {
            lemma_split_dc_nonempty(s.subrange(1, s.len() as int));
        }
    }
}

/// Whether `s` begins with `p`.
pub fn starts_with_chars(s: &Vec<char>, p: &Vec<char>) -> (b: bool)
    ensures
        b == has_prefix(s@, p@),
{
    if p.len() > s.len() {
        return false;
    }
    let mut i: usize = 0;
    while i < p.len()
        invariant
            p.len() <= s.len(),
            i <= p.len(),
            forall|k: int| 0 <= k < i ==> s@[k] == p@[k],
        decreases p.len() - i,
    {
        if s[i] != p[i] {
            assert(s@.subrange(0, p.len() as int)[i as int] != p@[i as int]);
            return false;
        }
        i += 1;
    }
    assert(s@.subrange(0, p.len() as int) =~= p@);
    true
}

/// The character sequences held by a vector of character vectors.
pub open spec fn views(v: Seq<Vec<char>>) -> Seq<Seq<char>> {
    v.map_values(|x: Vec<char>| x@)
}

/// The pieces of `split_dc(s)` that come after a prefix of `s` is consumed, glued to the
/// pieces already cut off: the shape of the state of a left-to-right split.
pub open spec fn glue(done: Seq<Seq<char>>, cur: Seq<char>, rest: Seq<Seq<char>>) -> Seq<Seq<char>> {
    done + seq![cur + rest[0]] + rest.drop_first()
}

/// Splits `s` at every `::`, from the left, as `str::split("::")` does.
pub fn split_on_dcolon(s: &Vec<char>) -> (parts: Vec<Vec<char>>)
    ensures
        views(parts@) == split_dc(s@),
{
    let mut parts: Vec<Vec<char>> = Vec::new();
    let mut cur: Vec<char> = Vec::new();
    let mut i: usize = 0;
    let n = s.len();
    proof {
        lemma_split_dc_nonempty(s@);
        assert(s@.subrange(0, n as int) =~= s@);
        let r = split_dc(s@);
        assert(glue(Seq::empty(), Seq::empty(), r) =~= r);
    }
    while i < n
        invariant
            n == s.len(),
            i <= n,
            split_dc(s@) == glue(views(parts@), cur@, split_dc(s@.subrange(i as int, n as int))),
        decreases n - i,
    {
        let ghost tail = s@.subrange(i as int, n as int);
        if i + 1 < n && s[i] == ':' && s[i + 1] == ':' {
            proof {
                assert(tail.subrange(2, tail.len() as int) =~= s@.subrange(i + 2, n as int));
                let r = split_dc(s@.subrange(i + 2, n as int));
                lemma_split_dc_nonempty(s@.subrange(i + 2, n as int));
                assert(split_dc(tail) == seq![Seq::<char>::empty()] + r);
                assert(glue(views(parts@), cur@, split_dc(tail)) =~= glue(
                    views(parts@).push(cur@),
                    Seq::empty(),
                    r,
                ));
            }
            let ghost before = views(parts@);
            let done_piece = cur;
            cur = Vec::new();
            parts.push(done_piece);
            assert(views(parts@) =~= before.push(done_piece@));
            i += 2;
        } else {
            proof {
                let r = split_dc(s@.subrange(i + 1, n as int));
                lemma_split_dc_nonempty(s@.subrange(i + 1, n as int));
                let c = s@[i as int];
                if tail.len() >= 2 {
                    assert(tail.subrange(1, tail.len() as int) =~= s@.subrange(i + 1, n as int));
                    assert(split_dc(tail) == r.update(0, seq![tail[0]] + r[0]));
                    assert(cur@ + (seq![c] + r[0]) =~= cur@.push(c) + r[0]);
                    assert(r.update(0, seq![c] + r[0]).drop_first() =~= r.drop_first());
                } else {
                    assert(s@.subrange(i + 1, n as int) =~= Seq::<char>::empty());
                    assert(tail =~= seq![c]);
                    assert(split_dc(tail) == seq![tail]);
                    assert(r == seq![Seq::<char>::empty()]);
                    assert(cur@ + tail =~= cur@.push(c) + Seq::<char>::empty());
                }
                assert(glue(views(parts@), cur@, split_dc(tail)) =~= glue(
                    views(parts@),
                    cur@.push(s@[i as int]),
                    r,
                ));
            }
            cur.push(s[i]);
            i += 1;
        }
    }
    proof {
        assert(s@.subrange(n as int, n as int) =~= Seq::<char>::empty());
    }
    let ghost before = views(parts@);
    let ghost last = cur@;
    parts.push(cur);
    assert(views(parts@) =~= before.push(last));
    assert(views(parts@) =~= glue(before, last, seq![Seq::<char>::empty()]));
    parts
}

/// `s` with every leading copy of `p` removed, as `str::trim_start_matches(p)` leaves it.
pub open spec fn strip_repeated(s: Seq<char>, p: Seq<char>) -> Seq<char>
    decreases s.len(),
{
    if p.len() > 0 && has_prefix(s, p) {
        strip_repeated(s.subrange(p.len() as int, s.len() as int), p)
    } else {
        s
    }
}

/// How many leading copies of `p` `strip_repeated` removes.
pub open spec fn count_repeated(s: Seq<char>, p: Seq<char>) -> nat
    decreases s.len(),
{
    if p.len() > 0 && has_prefix(s, p) {
        1 + count_repeated(s.subrange(p.len() as int, s.len() as int), p)
    } else {
        0
    }
}

/// Whether two character vectors hold the same characters.
pub fn same_chars(a: &Vec<char>, b: &Vec<char>) -> (r: bool)
    ensures
        r == (a@ == b@),
{
    if a.len() != b.len() {
        return false;
    }
    let mut i: usize = 0;
    while i < a.len()
        invariant
            a.len() == b.len(),
            i <= a.len(),
            forall|k: int| 0 <= k < i ==> a@[k] == b@[k],
        decreases a.len() - i,
    {
        if a[i] != b[i] {
            return false;
        }
        i += 1;
    }
    assert(a@ =~= b@);
    true
}

/// The characters of `s` from `start` on.
pub fn chars_from(s: &Vec<char>, start: usize) -> (r: Vec<char>)
    requires
        start <= s.len(),
    ensures
        r@ == s@.subrange(start as int, s.len() as int),
{
    let mut r: Vec<char> = Vec::new();
    let mut i = start;
    while i < s.len()
        invariant
            start <= i <= s.len(),
            r@ == s@.subrange(start as int, i as int),
        decreases s.len() - i,
    {
        r.push(s[i]);
        i += 1;
        assert(r@ =~= s@.subrange(start as int, i as int));
    }
    r
}

/// Whether two strings hold the same characters.
pub fn same_str(a: &str, b: &str) -> (r: bool)
    ensures
        r == (a@ == b@),
{
    same_chars(&chars_of(a), &chars_of(b))
}

/// A copy of the string.
pub fn copy_string(s: &String) -> (r: String)
    ensures
        r@ == s@,
{
    s.clone()
}

/// The characters held by a sequence of strings.
pub open spec fn strs(v: Seq<String>) -> Seq<Seq<char>> {
    v.map_values(|x: String| x@)
}

/// The characters held by an optional string.
pub open spec fn opt_str(o: Option<String>) -> Option<Seq<char>> {
    match o {
        Some(s) => Some(s@),
        None => None,
    }
}

/// A copy of an optional string.
pub fn copy_opt_string(o: &Option<String>) -> (r: Option<String>)
    ensures
        opt_str(r) == opt_str(*o),
{
    match o {
        Some(s) => Some(s.clone()),
        None => None,
    }
}

/// A copy of a list of strings.
pub fn copy_strings(v: &Vec<String>) -> (r: Vec<String>)
    ensures
        strs(r@) == strs(v@),
{
    let mut r: Vec<String> = Vec::new();
    let mut i: usize = 0;
    while i < v.len()
        invariant
            i <= v.len(),
            strs(r@) == strs(v@).take(i as int),
        decreases v.len() - i,
    {
        let ghost before = strs(r@);
        r.push(v[i].clone());
        assert(strs(r@) =~= before.push(v@[i as int]@));
        assert(strs(v@).take(i + 1) =~= strs(v@).take(i as int).push(v@[i as int]@));
        i += 1;
    }
    assert(strs(v@).take(v.len() as int) =~= strs(v@));
    r
}

/// `a` followed by `b`.
pub fn concat_chars(a: &Vec<char>, b: &Vec<char>) -> (r: Vec<char>)
    ensures
        r@ == a@ + b@,
{
    let mut r = a.clone();
    let mut i: usize = 0;
    while i < b.len()
        invariant
            i <= b.len(),
            r@ == a@ + b@.subrange(0, i as int),
        decreases b.len() - i,
    {
        r.push(b[i]);
        i += 1;
        assert(r@ =~= a@ + b@.subrange(0, i as int));
    }
    assert(b@.subrange(0, b.len() as int) =~= b@);
    r
}

/// `a`, then `::`, then `b`.
pub fn concat_dc(a: &Vec<char>, b: &Vec<char>) -> (r: Vec<char>)
    ensures
        r@ == a@ + dcolon() + b@,
{
    let mut r = a.clone();
    r.push(':');
    r.push(':');
    assert(r@ =~= a@ + dcolon());
    concat_chars(&r, b)
}

/// Removes every leading copy of `p` from `s`, returning what is left and how many copies
/// were removed.
pub fn strip_repeated_prefix(s: &Vec<char>, p: &Vec<char>) -> (r: (Vec<char>, usize))
    requires
        p.len() > 0,
    ensures
        r.0@ == strip_repeated(s@, p@),
        r.1 == count_repeated(s@, p@),
{
    let mut rest = s.clone();
    let mut count: usize = 0;
    while starts_with_chars(&rest, p)
        invariant
            p.len() > 0,
            count <= s.len() - rest.len(),
            strip_repeated(s@, p@) == strip_repeated(rest@, p@),
            count_repeated(s@, p@) == count + count_repeated(rest@, p@),
        decreases rest.len(),
    {
        rest = chars_from(&rest, p.len());
        count += 1;
    }
    (rest, count)
}

/// The pieces joined with `::` between them.
pub fn join_with_dcolon(parts: &Vec<Vec<char>>) -> (r: Vec<char>)
    ensures
        r@ == join_dc(views(parts@)),
{
    let mut r: Vec<char> = Vec::new();
    let mut k: usize = 0;
    while k < parts.len()
        invariant
            k <= parts.len(),
            r@ == join_dc(views(parts@).take(k as int)),
        decreases parts.len() - k,
    {
        let ghost vs = views(parts@);
        proof {
            assert(vs.take(k + 1).drop_last() =~= vs.take(k as int));
        }
        if k == 0 {
            r = parts[k].clone();
        } else {
            r = concat_dc(&r, &parts[k]);
        }
        k += 1;
    }
    assert(views(parts@).take(parts.len() as int) =~= views(parts@));
    r
}


/// `s` holds no `:`.
pub open spec fn colon_free(s: Seq<char>) -> bool {
    forall|i: int| 0 <= i < s.len() ==> s[i] != ':'
}

/// A word without `:` is split into itself alone, and it is the first piece of the word
/// followed by `::` and anything.
pub proof fn lemma_split_dc_word(w: Seq<char>, t: Seq<char>)
    requires
        colon_free(w),
    ensures
        split_dc(w) == seq![w],
        split_dc(w + dcolon() + t)[0] == w,
    decreases w.len(),
{
    let s = w + dcolon() + t;
    if w.len() == 0 {
        assert(s[0] == ':' && s[1] == ':');
        assert(w =~= Seq::<char>::empty());
        lemma_split_dc_nonempty(s.subrange(2, s.len() as int));
    } else {
        let w1 = w.drop_first();
        lemma_split_dc_word(w1, t);
        assert(s.subrange(1, s.len() as int) =~= w1 + dcolon() + t);
        lemma_split_dc_nonempty(s.subrange(1, s.len() as int));
        lemma_split_dc_nonempty(w.subrange(1, w.len() as int));
        assert(s[0] == w[0]);
        assert(seq![w[0]] + w1 =~= w);
        if w.len() >= 2 {
            assert(w.subrange(1, w.len() as int) =~= w1);
        } else {
            assert(w =~= seq![w[0]]);
        }
    }
}

/// Joining at least two pieces begins with the first piece and `::`.
pub proof fn lemma_join_dc_first(parts: Seq<Seq<char>>)
    requires
        parts.len() >= 2,
    ensures
        has_prefix(join_dc(parts), parts[0] + dcolon()),
    decreases parts.len(),
{
    let p = parts[0] + dcolon();
    if parts.len() == 2 {
        assert(join_dc(parts.drop_last()) == parts[0]);
        assert(join_dc(parts).subrange(0, p.len() as int) =~= p);
    } else {
        lemma_join_dc_first(parts.drop_last());
        let j = join_dc(parts.drop_last());
        assert((j + dcolon() + parts.last()).subrange(0, p.len() as int) =~= j.subrange(
            0,
            p.len() as int,
        ));
    }
}

} // verus!
