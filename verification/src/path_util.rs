//! Relative-path reasoning: separators, depth, parents, components, and
//! ASCII case-insensitive comparison.
//!
//! All paths handled by this crate are `/`-separated strings relative to
//! some root; they never start or end with a separator.

use vstd::prelude::*;

verus! {

/// ASCII lower-casing of a single character; everything outside `A..Z`
/// is left unchanged.
pub open spec fn lower_char(c: char) -> char {
    if 'A' <= c && c <= 'Z' {
        ((c as int + 32) as char)
    } else {
        c
    }
}

/// Character-wise ASCII lower-casing of a whole path.
pub open spec fn norm(p: Seq<char>) -> Seq<char> {
    p.map_values(|c: char| lower_char(c))
}

/// `p` lies strictly below the directory `anc`: it starts with `anc`
/// followed by a separator.
pub open spec fn strict_under(p: Seq<char>, anc: Seq<char>) -> bool {
    &&& p.len() > anc.len() + 1
    &&& p.subrange(0, anc.len() as int) == anc
    &&& p[anc.len() as int] == '/'
}

/// `p` is the directory `pre` itself or lies strictly below it.
pub open spec fn is_dir_prefix(pre: Seq<char>, p: Seq<char>) -> bool {
    p == pre || strict_under(p, pre)
}

/// Number of separators in `p`; top-level entries have depth zero.
pub open spec fn depth_of(p: Seq<char>) -> nat
    decreases p.len(),
{
    if p.len() == 0 {
        0
    } else {
        depth_of(p.drop_last()) + (if p.last() == '/' {
            1nat
        } else {
            0nat
        })
    }
}

/// The relative path of the parent directory: everything before the last
/// separator, or `None` for a top-level entry.
pub open spec fn parent_of(p: Seq<char>) -> Option<Seq<char>>
    decreases p.len(),
{
    if p.len() == 0 {
        None
    } else if p.last() == '/' {
        Some(p.drop_last())
    } else {
        parent_of(p.drop_last())
    }
}

/// The components of `p`, split at every separator, exactly as
/// `str::split('/')` produces them (empty components included).
pub open spec fn split_slash(p: Seq<char>) -> Seq<Seq<char>>
    decreases p.len(),
{
    if p.len() == 0 {
        seq![Seq::<char>::empty()]
    } else if p.last() == '/' {
        split_slash(p.drop_last()).push(Seq::<char>::empty())
    } else {
        let s = split_slash(p.drop_last());
        s.update(s.len() - 1, s.last().push(p.last()))
    }
}

pub proof fn lemma_split_slash_len(p: Seq<char>)
    ensures
        split_slash(p).len() == depth_of(p) + 1,
    decreases p.len(),
{
    if p.len() > 0 {
        lemma_split_slash_len(p.drop_last());
    }
}

/// Some component of `p` equals `k` up to ASCII case.
pub open spec fn has_norm_component(p: Seq<char>, k: Seq<char>) -> bool {
    exists|i: int| 0 <= i < split_slash(p).len() && norm(#[trigger] split_slash(p)[i]) == norm(k)
}

/// Exact string equality.
pub fn str_eq(a: &str, b: &str) -> (r: bool)
    ensures
        r == (a@ == b@),
{
    let la = a.unicode_len();
    let lb = b.unicode_len();
    if la != lb {
        return false;
    }
    let mut i: usize = 0;
    while i < la
        invariant
            la == a@.len(),
            lb == b@.len(),
            la == lb,
            i <= la,
            forall|j: int| 0 <= j < i ==> a@[j] == b@[j],
        decreases la - i,
    {
        if a.get_char(i) != b.get_char(i) {
            return false;
        }
        i = i + 1;
    }
    proof {
        assert(a@ =~= b@);
    }
    true
}

/// ASCII lower-casing of a single character.
pub fn to_lower(c: char) -> (r: char)
    ensures
        r == lower_char(c),
{
    if c == 'A' {
        'a'
    } else if c == 'B' {
        'b'
    } else if c == 'C' {
        'c'
    } else if c == 'D' {
        'd'
    } else if c == 'E' {
        'e'
    } else if c == 'F' {
        'f'
    } else if c == 'G' {
        'g'
    } else if c == 'H' {
        'h'
    } else if c == 'I' {
        'i'
    } else if c == 'J' {
        'j'
    } else if c == 'K' {
        'k'
    } else if c == 'L' {
        'l'
    } else if c == 'M' {
        'm'
    } else if c == 'N' {
        'n'
    } else if c == 'O' {
        'o'
    } else if c == 'P' {
        'p'
    } else if c == 'Q' {
        'q'
    } else if c == 'R' {
        'r'
    } else if c == 'S' {
        's'
    } else if c == 'T' {
        't'
    } else if c == 'U' {
        'u'
    } else if c == 'V' {
        'v'
    } else if c == 'W' {
        'w'
    } else if c == 'X' {
        'x'
    } else if c == 'Y' {
        'y'
    } else if c == 'Z' {
        'z'
    } else {
        c
    }
}

/// String equality up to ASCII case.
pub fn str_eq_norm(a: &str, b: &str) -> (r: bool)
    ensures
        r == (norm(a@) == norm(b@)),
{
    let la = a.unicode_len();
    let lb = b.unicode_len();
    if la != lb {
        assert(norm(a@).len() != norm(b@).len());
        return false;
    }
    let mut i: usize = 0;
    while i < la
        invariant
            la == a@.len(),
            lb == b@.len(),
            la == lb,
            i <= la,
            forall|j: int| 0 <= j < i ==> lower_char(a@[j]) == lower_char(b@[j]),
        decreases la - i,
    {
        if to_lower(a.get_char(i)) != to_lower(b.get_char(i)) {
            assert(norm(a@)[i as int] != norm(b@)[i as int]);
            return false;
        }
        i = i + 1;
    }
    proof {
        assert(norm(a@) =~= norm(b@));
    }
    true
}

/// Whether `p` lies strictly below the directory `anc`.
pub fn strict_under_check(p: &str, anc: &str) -> (r: bool)
    ensures
        r == strict_under(p@, anc@),
{
    let lp = p.unicode_len();
    let la = anc.unicode_len();
    if la >= lp {
        return false;
    }
    if lp - la < 2 {
        return false;
    }
    if p.get_char(la) != '/' {
        return false;
    }
    let mut i: usize = 0;
    while i < la
        invariant
            lp == p@.len(),
            la == anc@.len(),
            lp > la + 1,
            i <= la,
            forall|j: int| 0 <= j < i ==> p@[j] == anc@[j],
        decreases la - i,
    {
        if p.get_char(i) != anc.get_char(i) {
            assert(p@.subrange(0, la as int)[i as int] != anc@[i as int]);
            return false;
        }
        i = i + 1;
    }
    proof {
        assert(p@.subrange(0, la as int) =~= anc@);
    }
    true
}

/// Whether `p` is the directory `pre` itself or lies strictly below it
/// (exact, case-sensitive comparison).
pub fn dir_prefix_check(pre: &str, p: &str) -> (r: bool)
    ensures
        r == is_dir_prefix(pre@, p@),
{
    if str_eq(pre, p) {
        return true;
    }
    strict_under_check(p, pre)
}

/// Whether `p` equals the directory `pre` or lies strictly below it,
/// comparing up to ASCII case.
pub open spec fn norm_dir_prefix(pre: Seq<char>, p: Seq<char>) -> bool {
    norm(p) == norm(pre) || (p.len() > pre.len() + 1 && norm(p.subrange(0, pre.len() as int))
        == norm(pre) && p[pre.len() as int] == '/')
}

pub fn norm_dir_prefix_check(pre: &str, p: &str) -> (r: bool)
    ensures
        r == norm_dir_prefix(pre@, p@),
{
    if str_eq_norm(pre, p) {
        return true;
    }
    let lp = p.unicode_len();
    let la = pre.unicode_len();
    if la >= lp {
        return false;
    }
    if lp - la < 2 {
        return false;
    }
    if p.get_char(la) != '/' {
        return false;
    }
    let mut i: usize = 0;
    while i < la
        invariant
            lp == p@.len(),
            la == pre@.len(),
            lp > la + 1,
            i <= la,
            forall|j: int| 0 <= j < i ==> lower_char(p@[j]) == lower_char(pre@[j]),
        decreases la - i,
    {
        if to_lower(p.get_char(i)) != to_lower(pre.get_char(i)) {
            assert(norm(p@.subrange(0, la as int))[i as int] != norm(pre@)[i as int]);
            return false;
        }
        i = i + 1;
    }
    proof {
        assert(norm(p@.subrange(0, la as int)) =~= norm(pre@));
    }
    true
}

/// Number of separators in `p`.
pub fn path_depth(p: &str) -> (r: usize)
    ensures
        r == depth_of(p@),
{
    let l = p.unicode_len();
    let mut i: usize = 0;
    let mut cnt: usize = 0;
    while i < l
        invariant
            l == p@.len(),
            i <= l,
            cnt <= i,
            cnt == depth_of(p@.take(i as int)),
        decreases l - i,
    {
        proof {
            assert(p@.take(i as int + 1).drop_last() =~= p@.take(i as int));
            assert(p@.take(i as int + 1).last() == p@[i as int]);
        }
        if p.get_char(i) == '/' {
            cnt = cnt + 1;
        }
        i = i + 1;
    }
    proof {
        assert(p@.take(l as int) =~= p@);
    }
    cnt
}

proof fn lemma_parent_at(p: Seq<char>, idx: int)
    requires
        0 <= idx < p.len(),
        p[idx] == '/',
        forall|j: int| idx < j < p.len() ==> p[j] != '/',
    ensures
        parent_of(p) == Some(p.subrange(0, idx)),
    decreases p.len(),
{
    if idx == p.len() - 1 {
        assert(p.drop_last() =~= p.subrange(0, idx));
    } else {
        assert(p.last() != '/');
        lemma_parent_at(p.drop_last(), idx);
        assert(p.drop_last().subrange(0, idx) =~= p.subrange(0, idx));
    }
}

proof fn lemma_parent_none(p: Seq<char>)
    requires
        forall|j: int| 0 <= j < p.len() ==> p[j] != '/',
    ensures
        parent_of(p) == None::<Seq<char>>,
    decreases p.len(),
{
    if p.len() > 0 {
        lemma_parent_none(p.drop_last());
    }
}

/// The parent directory of `p`, or `None` for a top-level entry.
pub fn parent_path(p: &str) -> (r: Option<String>)
    ensures
        match r {
            Some(par) => parent_of(p@) == Some(par@),
            None => parent_of(p@) == None::<Seq<char>>,
        },
{
    let l = p.unicode_len();
    let mut i: usize = l;
    while i > 0
        invariant
            l == p@.len(),
            i <= l,
            forall|j: int| i <= j < l ==> p@[j] != '/',
        decreases i,
    {
        i = i - 1;
        if p.get_char(i) == '/' {
            let par = p.substring_char(0, i);
            proof {
                lemma_parent_at(p@, i as int);
            }
            return Some(par.to_owned());
        }
    }
    proof {
        lemma_parent_none(p@);
    }
    None
}

/// Some component of `p` equals `k` up to ASCII case.
pub fn has_component_check(p: &str, k: &str) -> (r: bool)
    ensures
        r == has_norm_component(p@, k@),
{
    let l = p.unicode_len();
    let mut i: usize = 0;
    let mut start: usize = 0;
    let mut found = false;
    proof {
        assert(p@.take(0) =~= Seq::<char>::empty());
    }
    while i < l
        invariant
            l == p@.len(),
            i <= l,
            start <= i,
            split_slash(p@.take(i as int)).len() >= 1,
            split_slash(p@.take(i as int)).last() == p@.subrange(start as int, i as int),
            found == exists|j: int|
                0 <= j < split_slash(p@.take(i as int)).len() - 1 && norm(
                    #[trigger] split_slash(p@.take(i as int))[j],
                ) == norm(k@),
        decreases l - i,
    {
        proof {
            assert(p@.take(i as int + 1).drop_last() =~= p@.take(i as int));
            assert(p@.take(i as int + 1).last() == p@[i as int]);
        }
        let ghost old_split = split_slash(p@.take(i as int));
        let ghost new_split = split_slash(p@.take(i as int + 1));
        if p.get_char(i) == '/' {
            let comp = p.substring_char(start, i);
            if str_eq_norm(comp, k) {
                found = true;
            }
            proof {
                assert(new_split == old_split.push(Seq::<char>::empty()));
                assert(forall|j: int| 0 <= j < old_split.len() ==> new_split[j] == old_split[j]);
                assert(new_split[old_split.len() - 1] == comp@);
                assert(new_split.last() =~= p@.subrange(i as int + 1, i as int + 1));
            }
            start = i + 1;
        } else {
            proof {
                assert(new_split == old_split.update(
                    old_split.len() - 1,
                    old_split.last().push(p@[i as int]),
                ));
                assert(forall|j: int|
                    0 <= j < old_split.len() - 1 ==> new_split[j] == old_split[j]);
                assert(new_split.last() =~= p@.subrange(start as int, i as int + 1));
            }
        }
        i = i + 1;
    }
    proof {
        assert(p@.take(l as int) =~= p@);
    }
    let last = p.substring_char(start, l);
    let last_match = str_eq_norm(last, k);
    proof {
        assert(split_slash(p@)[split_slash(p@).len() - 1] == last@);
    }
    found || last_match
}

/// Number of occurrences of `c` in `s`.
pub open spec fn count_char(s: Seq<char>, c: char) -> nat
    decreases s.len(),
{
    if s.len() == 0 {
        0
    } else {
        count_char(s.drop_last(), c) + (if s.last() == c {
            1nat
        } else {
            0nat
        })
    }
}

pub proof fn lemma_count_char_pos(s: Seq<char>, c: char, i: int)
    requires
        0 <= i < s.len(),
        s[i] == c,
    ensures
        count_char(s, c) >= 1,
    decreases s.len(),
{
    if i < s.len() - 1 {
        lemma_count_char_pos(s.drop_last(), c, i);
    }
}

/// Two distinct occurrences force a count of at least two.
pub proof fn lemma_count_char_two(s: Seq<char>, c: char, i: int, j: int)
    requires
        0 <= i < j < s.len(),
        s[i] == c,
        s[j] == c,
    ensures
        count_char(s, c) >= 2,
    decreases s.len(),
{
    if j == s.len() - 1 {
        lemma_count_char_pos(s.drop_last(), c, i);
    } else {
        lemma_count_char_two(s.drop_last(), c, i, j);
    }
}

/// Counts `c` in `p` and reports the index of its first occurrence.
pub fn count_char_with_pos(p: &str, c: char) -> (r: (usize, usize))
    ensures
        r.0 == count_char(p@, c),
        r.0 > 0 ==> r.1 < p@.len() && p@[r.1 as int] == c,
{
    let l = p.unicode_len();
    let mut i: usize = 0;
    let mut cnt: usize = 0;
    let mut pos: usize = 0;
    while i < l
        invariant
            l == p@.len(),
            i <= l,
            cnt <= i,
            cnt == count_char(p@.take(i as int), c),
            cnt > 0 ==> pos < i && p@[pos as int] == c,
        decreases l - i,
    {
        proof {
            assert(p@.take(i as int + 1).drop_last() =~= p@.take(i as int));
            assert(p@.take(i as int + 1).last() == p@[i as int]);
        }
        if p.get_char(i) == c {
            if cnt == 0 {
                pos = i;
            }
            cnt = cnt + 1;
        }
        i = i + 1;
    }
    proof {
        assert(p@.take(l as int) =~= p@);
    }
    (cnt, pos)
}

} // verus!
