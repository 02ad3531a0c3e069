//! Comparing paths with patterns, without regard to ASCII case.
use vstd::prelude::*;

verus! {

/// The wildcard `*`, which stands for any number of code units.
pub const STAR: u16 = 0x2A;

/// The wildcard `?`, which stands for one code unit.
pub const QUESTION: u16 = 0x3F;

/// `c` with an ASCII capital letter replaced by the small one.
pub open spec fn lower(c: u16) -> u16 {
    if 0x41 <= c <= 0x5A {
        (c + 0x20) as u16
    } else {
        c
    }
}

/// Two sequences are equal but for ASCII case.
pub open spec fn same_text(a: Seq<u16>, b: Seq<u16>) -> bool {
    a.len() == b.len() && forall|i: int| 0 <= i < a.len() ==> lower(#[trigger] a[i]) == lower(b[i])
}

/// `c` in the pattern stands for the code unit `t` of a path.
pub open spec fn stands_for(c: u16, t: u16) -> bool {
    c == QUESTION || lower(c) == lower(t)
}

/// The path from index `i` on matches the pattern from index `j` on.
pub open spec fn glob_from(path: Seq<u16>, i: int, pattern: Seq<u16>, j: int) -> bool
    decreases path.len() - i + pattern.len() - j,
{
    if i > path.len() || j > pattern.len() {
        false
    } else if j == pattern.len() {
        i == path.len()
    } else if pattern[j] == STAR {
        glob_from(path, i, pattern, j + 1) || glob_from(path, i + 1, pattern, j)
    } else {
        i < path.len() && stands_for(pattern[j], path[i]) && glob_from(
            path,
            i + 1,
            pattern,
            j + 1,
        )
    }
}

/// The path matches a pattern with wildcards.
pub open spec fn glob(path: Seq<u16>, pattern: Seq<u16>) -> bool {
    glob_from(path, 0, pattern, 0)
}

fn to_lower_u16(c: u16) -> (r: u16)
    ensures
        r == lower(c),
{
    if 0x41 <= c && c <= 0x5A {
        c + 0x20
    } else {
        c
    }
}

/// Whether `path[from..]` starts with `part`.
fn matches_at(path: &[u16], from: usize, part: &[u16]) -> (b: bool)
    requires
        from + part@.len() <= path@.len(),
    ensures
        b == same_text(path@.subrange(from as int, from + part@.len()), part@),
{
    let ghost sub = path@.subrange(from as int, from + part@.len());
    let mut i: usize = 0;
    assert(path.len() == path@.len());
    while i < part.len()
        invariant
            i <= part@.len(),
            from + part@.len() <= path@.len(),
            path@.len() <= usize::MAX,
            sub == path@.subrange(from as int, from + part@.len()),
            forall|j: int| 0 <= j < i ==> lower(#[trigger] sub[j]) == lower(part@[j]),
        decreases part@.len() - i,
    {
        assert(sub[i as int] == path@[from + i]);
        if to_lower_u16(path[from + i]) != to_lower_u16(part[i]) {
            return false;
        }
        i += 1;
    }
    true
}

/// Whether a path starts with `prefix`.
pub fn matches_prefix_u16(path: &[u16], prefix: &[u16]) -> (b: bool)
    ensures
        b == (prefix@.len() <= path@.len() && same_text(
            path@.take(prefix@.len() as int),
            prefix@,
        )),
{
    if path.len() < prefix.len() {
        return false;
    }
    assert(path@.subrange(0, prefix@.len() as int) =~= path@.take(prefix@.len() as int));
    matches_at(path, 0, prefix)
}

/// Whether a path ends in `suffix`.
pub fn matches_suffix_u16(path: &[u16], suffix: &[u16]) -> (b: bool)
    ensures
        b == (suffix@.len() <= path@.len() && same_text(
            path@.skip(path@.len() - suffix@.len()),
            suffix@,
        )),
{
    if path.len() < suffix.len() {
        return false;
    }
    let from: usize = path.len() - suffix.len();
    assert(path@.subrange(from as int, from + suffix@.len()) =~= path@.skip(from as int));
    matches_at(path, from, suffix)
}

/// Whether a path equals `name`.
pub fn matches_exact_u16(path: &[u16], name: &[u16]) -> (b: bool)
    ensures
        b == same_text(path@, name@),
{
    if path.len() != name.len() {
        return false;
    }
    assert(path@.subrange(0, name@.len() as int) =~= path@);
    matches_at(path, 0, name)
}

/// No `*` stands in `pattern[from..to]`.
spec fn starless(pattern: Seq<u16>, from: int, to: int) -> bool {
    forall|j: int| from <= j < to ==> #[trigger] pattern[j] != STAR
}

/// A match of a pattern without stars in front takes up as many code units.
proof fn lemma_starless(path: Seq<u16>, i: int, pattern: Seq<u16>, j: int, to: int)
    requires
        0 <= j <= to <= pattern.len(),
        starless(pattern, j, to),
        glob_from(path, i, pattern, j),
    ensures
        glob_from(path, i + (to - j), pattern, to),
    decreases to - j,
{
    if j < to {
        assert(pattern[j] != STAR);
        lemma_starless(path, i + 1, pattern, j + 1, to);
    }
}

/// A star that matches from some index on matches from every earlier one.
proof fn lemma_star_absorbs(path: Seq<u16>, i: int, k: int, pattern: Seq<u16>, j: int)
    requires
        0 <= j < pattern.len(),
        pattern[j] == STAR,
        0 <= i <= k,
        glob_from(path, k, pattern, j),
    ensures
        glob_from(path, i, pattern, j),
    decreases k - i,
{
    if i < k {
        lemma_star_absorbs(path, i + 1, k, pattern, j);
    }
}

/// A star that matches lets the rest of the pattern match somewhere behind.
proof fn lemma_star_ends(path: Seq<u16>, i: int, pattern: Seq<u16>, j: int) -> (k: int)
    requires
        0 <= j < pattern.len(),
        pattern[j] == STAR,
        0 <= i,
        glob_from(path, i, pattern, j),
    ensures
        i <= k <= path.len(),
        glob_from(path, k, pattern, j + 1),
    decreases path.len() + 1 - i,
{
    if glob_from(path, i, pattern, j + 1) {
        i
    } else {
        assert(glob_from(path, i + 1, pattern, j));
        lemma_star_ends(path, i + 1, pattern, j)
    }
}

/// Whether a path matches a pattern with the wildcards `*` and `?`.
pub fn matches_glob_u16(path: &[u16], pattern: &[u16]) -> (b: bool)
    ensures
        b == glob(path@, pattern@),
{
    let p_len: usize = pattern.len();
    let t_len: usize = path.len();
    let mut p_idx: usize = 0;
    let mut t_idx: usize = 0;
    let mut has_star: bool = false;
    let mut star_idx: usize = 0;
    let mut match_idx: usize = 0;
    while t_idx < t_len
        invariant
            p_len == pattern@.len(),
            t_len == path@.len(),
            p_idx <= p_len,
            t_idx <= t_len,
            !has_star ==> glob(path@, pattern@) == glob_from(
                path@,
                t_idx as int,
                pattern@,
                p_idx as int,
            ),
            has_star ==> {
                &&& star_idx < p_idx
                &&& pattern@[star_idx as int] == STAR
                &&& starless(pattern@, star_idx + 1, p_idx as int)
                &&& t_idx == match_idx + (p_idx - star_idx - 1)
                &&& glob(path@, pattern@) == (glob_from(
                    path@,
                    t_idx as int,
                    pattern@,
                    p_idx as int,
                ) || glob_from(path@, match_idx + 1, pattern@, star_idx as int))
            },
            !has_star ==> match_idx == 0 && star_idx == 0,
        decreases
                if has_star {
                    p_len - star_idx
                } else {
                    p_len + 1
                },
                t_len - match_idx,
                t_len - t_idx,
    {
        if p_idx < p_len && pattern[p_idx] == STAR {
            proof {
                if has_star && glob_from(path@, match_idx + 1, pattern@, star_idx as int) {
                    let k = lemma_star_ends(path@, match_idx + 1, pattern@, star_idx as int);
                    lemma_starless(path@, k, pattern@, star_idx + 1, p_idx as int);
                    let e = k + (p_idx - star_idx - 1);
                    lemma_star_absorbs(path@, t_idx as int, e, pattern@, p_idx as int);
                }
            }
            has_star = true;
            star_idx = p_idx;
            match_idx = t_idx;
            p_idx += 1;
        } else if p_idx < p_len && (pattern[p_idx] == QUESTION || to_lower_u16(pattern[p_idx])
            == to_lower_u16(path[t_idx])) {
            p_idx += 1;
            t_idx += 1;
        } else if has_star {
            p_idx = star_idx + 1;
            match_idx += 1;
            t_idx = match_idx;
        } else {
            return false;
        }
    }
    proof {
        if has_star && glob_from(path@, match_idx + 1, pattern@, star_idx as int) {
            let k = lemma_star_ends(path@, match_idx + 1, pattern@, star_idx as int);
            lemma_starless(path@, k, pattern@, star_idx + 1, p_idx as int);
        }
    }
    while p_idx < p_len && pattern[p_idx] == STAR
        invariant
            p_len == pattern@.len(),
            t_len == path@.len(),
            t_idx == t_len,
            p_idx <= p_len,
            glob(path@, pattern@) == glob_from(path@, t_idx as int, pattern@, p_idx as int),
        decreases p_len - p_idx,
    {
        assert(!glob_from(path@, t_idx + 1, pattern@, p_idx as int));
        p_idx += 1;
    }
    p_idx == p_len
}

/// No wildcard stands in `pattern`.
pub open spec fn is_literal(pattern: Seq<u16>) -> bool {
    forall|j: int| 0 <= j < pattern.len() ==> #[trigger] pattern[j] != STAR && pattern[j] != QUESTION
}

/// A pattern without wildcards matches exactly the paths that equal it.
pub proof fn law_literal_pattern_is_exact(path: Seq<u16>, pattern: Seq<u16>)
    requires
        is_literal(pattern),
    ensures
        glob(path, pattern) == same_text(path, pattern),
{
    lemma_literal_from(path, pattern, 0);
}

proof fn lemma_literal_from(path: Seq<u16>, pattern: Seq<u16>, i: int)
    requires
        is_literal(pattern),
        0 <= i <= path.len(),
        i <= pattern.len(),
    ensures
        glob_from(path, i, pattern, i) == (path.len() == pattern.len() && forall|k: int|
            i <= k < path.len() ==> lower(#[trigger] path[k]) == lower(pattern[k])),
    decreases pattern.len() - i,
{
    if i < pattern.len() && i < path.len() {
        lemma_literal_from(path, pattern, i + 1);
    }
}

/// A star at the end of a pattern without other wildcards makes it match exactly the paths that
/// start with the rest of it.
pub proof fn law_trailing_star_is_prefix(path: Seq<u16>, prefix: Seq<u16>)
    requires
        is_literal(prefix),
    ensures
        glob(path, prefix.push(STAR)) == (prefix.len() <= path.len() && same_text(
            path.take(prefix.len() as int),
            prefix,
        )),
{
    lemma_prefix_from(path, prefix, 0);
}

proof fn lemma_prefix_from(path: Seq<u16>, prefix: Seq<u16>, i: int)
    requires
        is_literal(prefix),
        0 <= i <= prefix.len(),
        i <= path.len(),
    ensures
        glob_from(path, i, prefix.push(STAR), i) == (prefix.len() <= path.len() && forall|k: int|
            i <= k < prefix.len() ==> lower(#[trigger] path.take(prefix.len() as int)[k]) == lower(
                prefix[k],
            )),
    decreases prefix.len() - i,
{
    let pattern = prefix.push(STAR);
    if i == prefix.len() {
        assert(glob_from(path, path.len() as int, pattern, i + 1));
        assert(glob_from(path, path.len() as int, pattern, i));
        lemma_star_absorbs(path, i, path.len() as int, pattern, i);
    } else {
        assert(pattern[i] == prefix[i]);
        if i < path.len() {
            lemma_prefix_from(path, prefix, i + 1);
            if prefix.len() <= path.len() {
                assert(path.take(prefix.len() as int)[i] == path[i]);
            }
        }
    }
}

/// The same code unit, or the same ASCII letter in the other case.
pub open spec fn alike(a: u16, b: u16) -> bool {
    a == b || (0x41 <= a <= 0x5A && b == a + 0x20) || (0x41 <= b <= 0x5A && a == b + 0x20)
}

/// The same text but for the case of ASCII letters.
pub open spec fn all_alike(a: Seq<u16>, b: Seq<u16>) -> bool {
    a.len() == b.len() && forall|i: int| 0 <= i < a.len() ==> alike(#[trigger] a[i], b[i])
}

/// Texts are the same where they differ in the case of ASCII letters alone.
pub proof fn law_case_is_ignored(a: Seq<u16>, b: Seq<u16>)
    ensures
        same_text(a, b) == all_alike(a, b),
{
    if same_text(a, b) {
        assert forall|i: int| 0 <= i < a.len() implies alike(#[trigger] a[i], b[i]) by {
            assert(lower(a[i]) == lower(b[i]));
        }
    }
    if all_alike(a, b) {
        assert forall|i: int| 0 <= i < a.len() implies lower(#[trigger] a[i]) == lower(b[i]) by {
            assert(alike(a[i], b[i]));
        }
    }
}

/// Matching does not look at what stands before.
proof fn lemma_glob_moved(
    x: Seq<u16>,
    path: Seq<u16>,
    i: int,
    y: Seq<u16>,
    pattern: Seq<u16>,
    j: int,
)
    requires
        0 <= i,
        0 <= j,
    ensures
        glob_from(x + path, x.len() + i, y + pattern, y.len() + j) == glob_from(
            path,
            i,
            pattern,
            j,
        ),
    decreases path.len() - i + pattern.len() - j,
{
    if i <= path.len() && j < pattern.len() {
        assert((y + pattern)[y.len() + j] == pattern[j]);
        if pattern[j] == STAR {
            lemma_glob_moved(x, path, i, y, pattern, j + 1);
            lemma_glob_moved(x, path, i + 1, y, pattern, j);
        } else if i < path.len() {
            assert((x + path)[x.len() + i] == path[i]);
            lemma_glob_moved(x, path, i + 1, y, pattern, j + 1);
        }
    }
}

/// What a pattern with wildcards matches, from its front on. The empty pattern matches the empty
/// path. A star in front stands for any number of code units, of which none need be there; a
/// question mark for one; anything else for itself, in any case.
pub proof fn law_wildcards(path: Seq<u16>, first: u16, pattern: Seq<u16>)
    ensures
        glob(path, Seq::empty()) == (path.len() == 0),
        first == '*' as u16 ==> (glob(path, seq![first] + pattern) <==> exists|k: int|
            0 <= k <= path.len() && glob(#[trigger] path.skip(k), pattern)),
        first == '?' as u16 ==> (glob(path, seq![first] + pattern) <==> path.len() > 0 && glob(
            path.drop_first(),
            pattern,
        )),
        first != '*' as u16 && first != '?' as u16 ==> (glob(path, seq![first] + pattern)
            <==> path.len() > 0 && alike(first, path[0]) && glob(path.drop_first(), pattern)),
{
    let whole = seq![first] + pattern;
    assert(whole[0] == first);
    if path.len() > 0 {
        let head = seq![path[0]];
        lemma_glob_moved(head, path.drop_first(), 0, seq![first], pattern, 0);
        assert(head + path.drop_first() =~= path);
        law_case_is_ignored(seq![first], head);
        assert(alike(seq![first][0], head[0]) == alike(first, path[0]));
        if lower(first) == lower(path[0]) {
            assert(same_text(seq![first], head));
        }
        if alike(first, path[0]) {
            assert(all_alike(seq![first], head));
            assert(lower(seq![first][0]) == lower(head[0]));
        }
    }
    if first == STAR {
        if glob(path, whole) {
            let k = lemma_star_ends(path, 0, whole, 0);
            lemma_glob_moved(path.take(k), path.skip(k), 0, seq![first], pattern, 0);
            assert(path.take(k) + path.skip(k) =~= path);
            assert(glob(path.skip(k), pattern));
        }
        if exists|k: int| 0 <= k <= path.len() && glob(#[trigger] path.skip(k), pattern) {
            let k = choose|k: int| 0 <= k <= path.len() && glob(#[trigger] path.skip(k), pattern);
            lemma_glob_moved(path.take(k), path.skip(k), 0, seq![first], pattern, 0);
            assert(path.take(k) + path.skip(k) =~= path);
            assert(glob_from(path, k, whole, 1));
            assert(glob_from(path, k, whole, 0));
            lemma_star_absorbs(path, 0, k, whole, 0);
        }
    }
}

} // verus!
