//! Wildcard pattern matching (`*` matches any run of characters, `?` any
//! single character) as used by policy rules.

use vstd::prelude::*;

verus! {

/// `p[i..]` matches `s[j..]` as a glob pattern.
pub open spec fn glob_at(p: Seq<char>, s: Seq<char>, i: int, j: int) -> bool
    decreases p.len() - i, s.len() - j,
{
    if i < 0 || j < 0 || i > p.len() || j > s.len() {
        false
    } else if i == p.len() {
        j == s.len()
    } else if p[i] == '*' {
        glob_at(p, s, i + 1, j) || (j < s.len() && glob_at(p, s, i, j + 1))
    } else {
        j < s.len() && (p[i] == s[j] || p[i] == '?') && glob_at(p, s, i + 1, j + 1)
    }
}

/// The whole of `s` matches the glob pattern `p`.
pub open spec fn glob_match(p: Seq<char>, s: Seq<char>) -> bool {
    glob_at(p, s, 0, 0)
}

/// Every character of `p` from position `i` on is `*`.
pub open spec fn all_stars_from(p: Seq<char>, i: int) -> bool {
    forall|k: int| i <= k < p.len() ==> p[k] == '*'
}

/// A reachable state of the left-to-right matcher: positions in range, and
/// the remembered star (if any) lies before the pattern position.
pub open spec fn scan_state_ok(p: Seq<char>, s: Seq<char>, pi: int, si: int, star: Option<(int, int)>) -> bool {
    &&& 0 <= pi <= p.len()
    &&& 0 <= si <= s.len()
    &&& match star {
        None => true,
        Some((sp, ss)) => 0 <= sp < pi && p[sp] == '*' && 0 <= ss <= si,
    }
}

/// First component of the matcher's progress measure.
pub open spec fn scan_measure(s: Seq<char>, star: Option<(int, int)>) -> int {
    match star {
        None => s.len() + 1int,
        Some((_sp, ss)) => s.len() - ss,
    }
}

/// The verdict of the single-pass matcher with star backtracking, started
/// from pattern position `pi`, value position `si` and remembered star `star`.
/// A pattern character equal to the value character is consumed as a literal
/// before it is considered as a wildcard.
pub open spec fn scan(p: Seq<char>, s: Seq<char>, pi: int, si: int, star: Option<(int, int)>) -> bool
    decreases scan_measure(s, star), (s.len() - si) + (p.len() - pi),
{
    if !scan_state_ok(p, s, pi, si, star) {
        false
    } else if si < s.len() {
        if pi < p.len() && (p[pi] == s[si] || p[pi] == '?') {
            scan(p, s, pi + 1, si + 1, star)
        } else if pi < p.len() && p[pi] == '*' {
            scan(p, s, pi + 1, si, Some((pi, si)))
        } else {
            match star {
                Some((sp, ss)) => scan(p, s, sp + 1, ss + 1, Some((sp, ss + 1))),
                None => false,
            }
        }
    } else {
        all_stars_from(p, pi)
    }
}

/// The verdict of [`matches_pattern`] on a pattern and a value.
pub open spec fn pattern_matches(p: Seq<char>, s: Seq<char>) -> bool {
    scan(p, s, 0, 0, None)
}

/// `p[i..i+n]` holds no `*` and matches `s[j..j+n]` character by character.
pub open spec fn literal_run(p: Seq<char>, s: Seq<char>, i: int, j: int, n: int) -> bool {
    &&& 0 <= n
    &&& 0 <= i && i + n <= p.len()
    &&& 0 <= j && j + n <= s.len()
    &&& forall|x: int| i <= x < i + n ==> #[trigger] p[x] != '*' && (p[x] == s[x - i + j] || p[x] == '?')
}

proof fn lemma_literal_run(p: Seq<char>, s: Seq<char>, i: int, j: int, n: int)
    requires
        literal_run(p, s, i, j, n),
    ensures
        glob_at(p, s, i, j) == glob_at(p, s, i + n, j + n),
    decreases n,
{
    if n > 0 {
        assert(p[i] != '*');
        lemma_literal_run(p, s, i + 1, j + 1, n - 1);
    }
}

/// A star-free pattern run can only match as many value characters as it has.
proof fn lemma_literal_forced(p: Seq<char>, s: Seq<char>, i: int, k: int, n: int)
    requires
        0 <= n,
        0 <= i,
        i + n <= p.len(),
        0 <= k <= s.len(),
        forall|x: int| i <= x < i + n ==> #[trigger] p[x] != '*',
        glob_at(p, s, i, k),
    ensures
        k + n <= s.len(),
        literal_run(p, s, i, k, n),
        glob_at(p, s, i + n, k + n),
    decreases n,
{
    if n > 0 {
        assert(p[i] != '*');
        lemma_literal_forced(p, s, i + 1, k + 1, n - 1);
    }
}

/// A star can absorb any run of the value.
proof fn lemma_star(p: Seq<char>, s: Seq<char>, i: int, j: int)
    requires
        0 <= i < p.len(),
        p[i] == '*',
        0 <= j <= s.len(),
    ensures
        glob_at(p, s, i, j) == exists|k: int| j <= k <= s.len() && #[trigger] glob_at(p, s, i + 1, k),
    decreases s.len() - j,
{
    if j < s.len() {
        lemma_star(p, s, i, j + 1);
        if glob_at(p, s, i, j) {
            if glob_at(p, s, i + 1, j) {
            } else {
                let k = choose|k: int| j + 1 <= k <= s.len() && #[trigger] glob_at(p, s, i + 1, k);
                assert(glob_at(p, s, i + 1, k));
            }
        }
        if exists|k: int| j <= k <= s.len() && #[trigger] glob_at(p, s, i + 1, k) {
            let k = choose|k: int| j <= k <= s.len() && #[trigger] glob_at(p, s, i + 1, k);
            if k > j {
                assert(glob_at(p, s, i, j + 1));
            }
        }
    } else {
        if glob_at(p, s, i, j) {
            assert(glob_at(p, s, i + 1, j));
        }
        if exists|k: int| j <= k <= s.len() && #[trigger] glob_at(p, s, i + 1, k) {
            let k = choose|k: int| j <= k <= s.len() && #[trigger] glob_at(p, s, i + 1, k);
            assert(k == j);
        }
    }
}

/// An empty value matches exactly the all-star pattern suffixes.
proof fn lemma_empty_rest(p: Seq<char>, s: Seq<char>, i: int)
    requires
        0 <= i <= p.len(),
    ensures
        glob_at(p, s, i, s.len() as int) == all_stars_from(p, i),
    decreases p.len() - i,
{
    if i < p.len() {
        lemma_empty_rest(p, s, i + 1);
    }
}

/// What the matcher state has established so far about the whole match.
pub open spec fn scan_invariant(p: Seq<char>, s: Seq<char>, pi: int, si: int, star: Option<(int, int)>) -> bool {
    match star {
        None => glob_at(p, s, 0, 0) == glob_at(p, s, pi, si),
        Some((sp, ss)) => {
            &&& glob_at(p, s, 0, 0) == exists|k: int| ss <= k <= s.len() && #[trigger] glob_at(p, s, sp + 1, k)
            &&& pi - (sp + 1) == si - ss
            &&& literal_run(p, s, sp + 1, ss, pi - (sp + 1))
        },
    }
}

proof fn lemma_invariant_at_star(p: Seq<char>, s: Seq<char>, pi: int, si: int)
    requires
        0 <= pi < p.len(),
        0 <= si <= s.len(),
        glob_at(p, s, 0, 0) == exists|k: int| si <= k <= s.len() && #[trigger] glob_at(p, s, pi + 1, k),
    ensures
        scan_invariant(p, s, pi + 1, si, Some((pi, si))),
{
    assert(literal_run(p, s, pi + 1, si, 0));
    let star: Option<(int, int)> = Some((pi, si));
    match star {
        Some((sp, ss)) => {
            assert(sp == pi && ss == si);
            assert(glob_at(p, s, 0, 0) == exists|k: int| ss <= k <= s.len() && #[trigger] glob_at(p, s, sp + 1, k));
            assert((pi + 1) - (sp + 1) == si - ss);
            assert(literal_run(p, s, sp + 1, ss, (pi + 1) - (sp + 1)));
        },
        None => {},
    }
}

proof fn lemma_scan_glob(p: Seq<char>, s: Seq<char>, pi: int, si: int, star: Option<(int, int)>)
    requires
        scan_state_ok(p, s, pi, si, star),
        !s.contains('*'),
        scan_invariant(p, s, pi, si, star),
    ensures
        scan(p, s, pi, si, star) == glob_match(p, s),
    decreases scan_measure(s, star), (s.len() - si) + (p.len() - pi),
{
    if si < s.len() {
        if pi < p.len() && (p[pi] == s[si] || p[pi] == '?') {
            assert(p[pi] != '*') by {
                if p[pi] == '*' {
                    assert(s[si] != '*') by {
                        if s[si] == '*' {
                            assert(s.contains('*'));
                        }
                    }
                }
            }
            match star {
                None => {},
                Some((sp, ss)) => {
                    assert(literal_run(p, s, sp + 1, ss, pi + 1 - (sp + 1)));
                },
            }
            lemma_scan_glob(p, s, pi + 1, si + 1, star);
        } else if pi < p.len() && p[pi] == '*' {
            lemma_star(p, s, pi, si);
            match star {
                None => {},
                Some((sp, ss)) => {
                    let n = pi - (sp + 1);
                    lemma_literal_run(p, s, sp + 1, ss, n);
                    if exists|k: int| ss <= k <= s.len() && #[trigger] glob_at(p, s, sp + 1, k) {
                        let k = choose|k: int| ss <= k <= s.len() && #[trigger] glob_at(p, s, sp + 1, k);
                        lemma_literal_forced(p, s, sp + 1, k, n);
                        lemma_star(p, s, pi, k + n);
                        let k2 = choose|k2: int| k + n <= k2 <= s.len() && #[trigger] glob_at(p, s, pi + 1, k2);
                        assert(si <= k2 <= s.len() && glob_at(p, s, pi + 1, k2));
                    }
                    if exists|k: int| si <= k <= s.len() && #[trigger] glob_at(p, s, pi + 1, k) {
                        assert(glob_at(p, s, sp + 1, ss));
                    }
                },
            }
            assert(glob_at(p, s, 0, 0) == exists|k: int| si <= k <= s.len() && #[trigger] glob_at(p, s, pi + 1, k));
            lemma_invariant_at_star(p, s, pi, si);
            lemma_scan_glob(p, s, pi + 1, si, Some((pi, si)));
        } else {
            match star {
                Some((sp, ss)) => {
                    let n = pi - (sp + 1);
                    lemma_literal_run(p, s, sp + 1, ss, n);
                    assert(!glob_at(p, s, pi, si));
                    if exists|k: int| ss <= k <= s.len() && #[trigger] glob_at(p, s, sp + 1, k) {
                        let k = choose|k: int| ss <= k <= s.len() && #[trigger] glob_at(p, s, sp + 1, k);
                        assert(k != ss);
                    }
                    lemma_scan_glob(p, s, sp + 1, ss + 1, Some((sp, ss + 1)));
                },
                None => {},
            }
        }
    } else {
        lemma_empty_rest(p, s, pi);
        match star {
            None => {},
            Some((sp, ss)) => {
                let n = pi - (sp + 1);
                lemma_literal_run(p, s, sp + 1, ss, n);
                if exists|k: int| ss <= k <= s.len() && #[trigger] glob_at(p, s, sp + 1, k) {
                    let k = choose|k: int| ss <= k <= s.len() && #[trigger] glob_at(p, s, sp + 1, k);
                    lemma_literal_forced(p, s, sp + 1, k, n);
                    assert(k == ss);
                }
            },
        }
    }
}

/// On values that contain no `*`, the matcher decides exactly glob matching.
pub proof fn lemma_pattern_matches_is_glob(p: Seq<char>, s: Seq<char>)
    requires
        !s.contains('*'),
    ensures
        pattern_matches(p, s) == glob_match(p, s),
{
    lemma_scan_glob(p, s, 0, 0, None);
}

} // verus!
