//! Shell-style patterns with `*` and `?`.

use vstd::prelude::*;

use crate::text::chars_of;

verus! {

/// Whether the name `s` matches the pattern `p`: `*` stands for any run of
/// characters, `?` for any one character, anything else for itself.
pub open spec fn glob_matches(p: Seq<char>, s: Seq<char>) -> bool
    decreases p.len() + s.len(),
{
    if p.len() == 0 {
        s.len() == 0
    } else if p[0] == '*' {
        glob_matches(p.drop_first(), s) || (s.len() > 0 && glob_matches(p, s.drop_first()))
    } else {
        s.len() > 0 && (p[0] == '?' || p[0] == s[0]) && glob_matches(
            p.drop_first(),
            s.drop_first(),
        )
    }
}

/// Whether the rest of `s` from `j` matches the rest of `p` from `i`.
spec fn rest_matches(p: Seq<char>, s: Seq<char>, i: int, j: int) -> bool {
    glob_matches(p.skip(i), s.skip(j))
}

/// One step of matching, by position.
proof fn lemma_step(p: Seq<char>, s: Seq<char>, i: int, j: int)
    requires
        0 <= i <= p.len(),
        0 <= j <= s.len(),
    ensures
        i == p.len() ==> rest_matches(p, s, i, j) == (j == s.len()),
        i < p.len() && p[i] == '*' ==> rest_matches(p, s, i, j) == (rest_matches(p, s, i + 1, j)
            || (j < s.len() && rest_matches(p, s, i, j + 1))),
        i < p.len() && p[i] != '*' ==> rest_matches(p, s, i, j) == (j < s.len() && (p[i] == '?'
            || p[i] == s[j]) && rest_matches(p, s, i + 1, j + 1)),
{
    if i < p.len() {
        assert(p.skip(i).drop_first() =~= p.skip(i + 1));
    }
    if j < s.len() {
        assert(s.skip(j).drop_first() =~= s.skip(j + 1));
    }
}

/// Where the rest of a pattern that begins with `*` matches, the star ends somewhere.
proof fn lemma_star_ends(p: Seq<char>, s: Seq<char>, i: int, j: int) -> (k: int)
    requires
        0 <= i < p.len(),
        p[i] == '*',
        0 <= j <= s.len(),
        rest_matches(p, s, i, j),
    ensures
        j <= k <= s.len(),
        rest_matches(p, s, i + 1, k),
    decreases s.len() - j,
{
    lemma_step(p, s, i, j);
    if rest_matches(p, s, i + 1, j) {
        j
    } else {
        lemma_star_ends(p, s, i, j + 1)
    }
}

/// A stretch of pattern without `*` takes up as many characters as it is long.
proof fn lemma_plain_stretch(p: Seq<char>, s: Seq<char>, a: int, b: int, j: int)
    requires
        0 <= a <= b <= p.len(),
        forall|i: int| a <= i < b ==> p[i] != '*',
        0 <= j <= s.len(),
        rest_matches(p, s, a, j),
    ensures
        j + (b - a) <= s.len(),
        rest_matches(p, s, b, j + (b - a)),
    decreases b - a,
{
    if a < b {
        lemma_step(p, s, a, j);
        lemma_plain_stretch(p, s, a + 1, b, j + 1);
    }
}

/// A star may begin earlier than where it is known to match.
proof fn lemma_star_begins_earlier(p: Seq<char>, s: Seq<char>, b: int, i: int, k: int)
    requires
        0 <= b < p.len(),
        p[b] == '*',
        0 <= i <= k <= s.len(),
        rest_matches(p, s, b, k),
    ensures
        rest_matches(p, s, b, i),
    decreases k - i,
{
    if i < k {
        lemma_star_begins_earlier(p, s, b, i + 1, k);
        lemma_step(p, s, b, i);
    }
}

/// If the last star at `sp` took more than up to `mark`, then the plain stretch
/// up to `pi` would end later than at `si`.
proof fn lemma_longer_star(p: Seq<char>, s: Seq<char>, sp: int, mark: int, pi: int, si: int) -> (k:
    int)
    requires
        0 <= sp < pi <= p.len(),
        p[sp] == '*',
        forall|i: int| sp < i < pi ==> p[i] != '*',
        0 <= mark < s.len(),
        pi - (sp + 1) == si - mark,
        rest_matches(p, s, sp, mark + 1),
    ensures
        si < k <= s.len(),
        rest_matches(p, s, pi, k),
{
    let j = lemma_star_ends(p, s, sp, mark + 1);
    lemma_plain_stretch(p, s, sp + 1, pi, j);
    j + (pi - (sp + 1))
}

/// What is left to match, given the last star and how much it has taken.
spec fn pending(
    p: Seq<char>,
    s: Seq<char>,
    star: Option<usize>,
    mark: int,
    pi: int,
    si: int,
) -> bool {
    match star {
        None => rest_matches(p, s, pi, si),
        Some(sp) => rest_matches(p, s, pi, si) || (mark < s.len() && rest_matches(
            p,
            s,
            sp as int,
            mark + 1,
        )),
    }
}

/// Whether `name` matches the shell-style pattern `pattern` as a whole: `*` stands
/// for any run of characters, the empty one too, `?` for exactly one character;
/// case matters, and there are no character classes.
pub fn glob_match(pattern: &str, name: &str) -> (r: bool)
    ensures
        r == glob_matches(pattern@, name@),
{
    let p = chars_of(pattern);
    let s = chars_of(name);
    let mut pi: usize = 0;
    let mut si: usize = 0;
    let mut star: Option<usize> = None;
    let mut mark: usize = 0;
    assert(p@.skip(0) =~= p@);
    assert(s@.skip(0) =~= s@);
    // `star` is the last `*` met and `mark` how far it reaches: on a mismatch that
    // star takes one more character, and matching resumes behind it.
    while si < s.len()
        invariant
            p@ == pattern@,
            s@ == name@,
            pi <= p.len(),
            si <= s.len(),
            mark <= si,
            star matches Some(sp) ==> sp < pi && p@[sp as int] == '*' && pi - (sp + 1) == si - mark
                && forall|i: int| sp < i < pi ==> p@[i] != '*',
            glob_matches(p@, s@) == pending(p@, s@, star, mark as int, pi as int, si as int),
        decreases
                (match star {
                    Some(sp) => p.len() - sp,
                    None => p.len() + 1,
                }),
                s.len() - mark,
                s.len() - si,
    {
        proof {
            lemma_step(p@, s@, pi as int, si as int);
        }
        if pi < p.len() && p[pi] == '*' {
            proof {
                if let Some(sp) = star {
                    if mark < s.len() && rest_matches(p@, s@, sp as int, mark + 1) {
                        let k = lemma_longer_star(
                            p@,
                            s@,
                            sp as int,
                            mark as int,
                            pi as int,
                            si as int,
                        );
                        lemma_star_begins_earlier(p@, s@, pi as int, si as int, k);
                    }
                }
            }
            star = Some(pi);
            mark = si;
            pi += 1;
        } else if pi < p.len() && (p[pi] == '?' || p[pi] == s[si]) {
            pi += 1;
            si += 1;
        } else if let Some(sp) = star {
            pi = sp + 1;
            mark += 1;
            si = mark;
            proof {
                lemma_step(p@, s@, sp as int, mark as int);
            }
        } else {
            return false;
        }
    }
    proof {
        if let Some(sp) = star {
            if mark < s.len() && rest_matches(p@, s@, sp as int, mark + 1) {
                let k = lemma_longer_star(p@, s@, sp as int, mark as int, pi as int, si as int);
                assert(false);
            }
        }
    }
    while pi < p.len() && p[pi] == '*'
        invariant
            pi <= p.len(),
            si == s.len(),
            glob_matches(p@, s@) == rest_matches(p@, s@, pi as int, si as int),
        decreases p.len() - pi,
    {
        proof {
            lemma_step(p@, s@, pi as int, si as int);
        }
        pi += 1;
    }
    proof {
        lemma_step(p@, s@, pi as int, si as int);
    }
    pi == p.len()
}

/// The law of the escape hatch: the pattern `*` matches every name.
pub proof fn law_star_matches_all(s: Seq<char>)
    ensures
        glob_matches(seq!['*'], s),
    decreases s.len(),
{
    let p = seq!['*'];
    assert(p.drop_first() =~= seq![]);
    if s.len() > 0 {
        law_star_matches_all(s.drop_first());
    } else {
        assert(glob_matches(p.drop_first(), s));
    }
}

/// A pattern without wildcards matches exactly the name that it spells.
pub proof fn law_plain_pattern_matches_itself(p: Seq<char>, s: Seq<char>)
    requires
        forall|i: int| 0 <= i < p.len() ==> p[i] != '*' && p[i] != '?',
    ensures
        glob_matches(p, s) == (p == s),
    decreases p.len(),
{
    if p.len() > 0 && s.len() > 0 {
        law_plain_pattern_matches_itself(p.drop_first(), s.drop_first());
        if p[0] == s[0] && p.drop_first() == s.drop_first() {
            assert(p =~= seq![p[0]] + p.drop_first());
            assert(s =~= seq![s[0]] + s.drop_first());
        }
    } else if p.len() == 0 && s.len() == 0 {
        assert(p =~= s);
    }
}

/// What each part of a pattern stands for, before whatever follows it: `*` for a
/// run of any length, `?` for one character, and any other character for itself.
pub proof fn law_pattern_meaning(c: char, p: Seq<char>, s: Seq<char>)
    ensures
        glob_matches(seq![], s) <==> s.len() == 0,
        glob_matches(seq!['*'] + p, s) <==> exists|k: int|
            0 <= k <= s.len() && glob_matches(p, #[trigger] s.skip(k)),
        glob_matches(seq!['?'] + p, s) <==> s.len() > 0 && glob_matches(p, s.skip(1)),
        c != '*' && c != '?' ==> (glob_matches(seq![c] + p, s) <==> s.len() > 0 && s[0] == c
            && glob_matches(p, s.skip(1))),
{
    let star = seq!['*'] + p;
    assert(star.drop_first() =~= p);
    assert(star.skip(0) =~= star);
    assert(star.skip(1) =~= p);
    assert(s.skip(0) =~= s);
    assert((seq!['?'] + p).drop_first() =~= p);
    assert((seq![c] + p).drop_first() =~= p);
    if s.len() > 0 {
        assert(s.drop_first() =~= s.skip(1));
    }
    if glob_matches(star, s) {
        let k = lemma_star_ends(star, s, 0, 0);
        assert(glob_matches(p, s.skip(k)));
    }
    if exists|k: int| 0 <= k <= s.len() && glob_matches(p, #[trigger] s.skip(k)) {
        let k = choose|k: int| 0 <= k <= s.len() && glob_matches(p, #[trigger] s.skip(k));
        lemma_step(star, s, 0, k);
        lemma_star_begins_earlier(star, s, 0, 0, k);
    }
}

} // verus!
