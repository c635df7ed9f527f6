use vstd::prelude::*;

verus! {

/// Characters stripped from the ends of a raw path before slash
/// trimming: the ASCII whitespace characters — space, tab, line feed,
/// vertical tab, form feed and carriage return. Whitespace beyond ASCII
/// is deliberately left alone; a path that carries it keeps it.
pub open spec fn blank(c: char) -> bool {
    c == ' ' || c == '\t' || c == '\n' || c == '\u{0B}' || c == '\u{0C}' || c == '\r'
}

/// The character class a trim pass removes: separators or blanks.
pub open spec fn trimmed_char(c: char, slash: bool) -> bool {
    if slash {
        c == '/'
    } else {
        blank(c)
    }
}

/// `s` with every leading character of the class removed.
pub open spec fn drop_front(s: Seq<char>, slash: bool) -> Seq<char>
    decreases s.len(),
{
    if s.len() > 0 && trimmed_char(s[0], slash) {
        drop_front(s.drop_first(), slash)
    } else {
        s
    }
}

/// `s` with every trailing character of the class removed.
pub open spec fn drop_back(s: Seq<char>, slash: bool) -> Seq<char>
    decreases s.len(),
{
    if s.len() > 0 && trimmed_char(s.last(), slash) {
        drop_back(s.drop_last(), slash)
    } else {
        s
    }
}

/// `s` with the class removed from both ends.
pub open spec fn trim_pair(s: Seq<char>, slash: bool) -> Seq<char> {
    drop_back(drop_front(s, slash), slash)
}

/// Path normalization: trim surrounding blanks, strip leading and trailing
/// separators, and, for directory-context lookups on a non-empty result,
/// re-append a single trailing separator to keep a directory's cache key
/// apart from a same-named file's key.
pub open spec fn format_path_spec(s: Seq<char>, dir: bool) -> Seq<char> {
    let t = trim_pair(trim_pair(s, false), true);
    if t.len() > 0 && dir {
        t.push('/')
    } else {
        t
    }
}

/// Position of the first separator of `p`, counting `p.len()` when none.
pub open spec fn first_slash(p: Seq<char>) -> int
    decreases p.len(),
{
    if p.len() == 0 {
        0
    } else if p[0] == '/' {
        0
    } else {
        1 + first_slash(p.drop_first())
    }
}

/// Whether `p` holds a separator at all.
pub open spec fn has_slash(p: Seq<char>) -> bool {
    exists|i: int| 0 <= i < p.len() && p[i] == '/'
}

/// The path segment before the first separator; all of `p` when none.
pub open spec fn seg_of(p: Seq<char>) -> Seq<char> {
    if has_slash(p) {
        p.subrange(0, first_slash(p))
    } else {
        p
    }
}

/// What follows the first separator; empty when there is none.
pub open spec fn rest_of(p: Seq<char>) -> Seq<char> {
    if has_slash(p) {
        p.subrange(first_slash(p) + 1, p.len() as int)
    } else {
        Seq::<char>::empty()
    }
}

/// Bounds of `first_slash`: it never leaves `p`, and it lands on the
/// separator exactly when `p` holds one.
pub proof fn lemma_first_slash_bounds(p: Seq<char>)
    ensures
        0 <= first_slash(p) <= p.len(),
        has_slash(p) ==> first_slash(p) < p.len() && p[first_slash(p)] == '/',
        !has_slash(p) ==> first_slash(p) == p.len(),
    decreases p.len(),
{
    if p.len() > 0 && p[0] != '/' {
        let t = p.drop_first();
        lemma_first_slash_bounds(t);
        assert(forall|j: int| 0 <= j < t.len() ==> t[j] == p[j + 1]);
        if has_slash(p) {
            let i = choose|i: int| 0 <= i < p.len() && p[i] == '/';
            assert(t[i - 1] == '/');
            assert(has_slash(t));
        }
        if has_slash(t) {
            let i = choose|i: int| 0 <= i < t.len() && t[i] == '/';
            assert(p[i + 1] == '/');
            assert(has_slash(p));
        }
    }
}

/// `first_slash` is exactly the least separator position.
pub proof fn lemma_first_slash_at(p: Seq<char>, i: int)
    requires
        0 <= i < p.len(),
        p[i] == '/',
        forall|j: int| 0 <= j < i ==> p[j] != '/',
    ensures
        first_slash(p) == i,
        has_slash(p),
    decreases i,
{
    if i == 0 {
    } else {
        assert(forall|j: int| 0 <= j < i - 1 ==> p.drop_first()[j] == p[j + 1]);
        lemma_first_slash_at(p.drop_first(), i - 1);
    }
}

/// A path without a separator is its own segment.
pub proof fn lemma_no_slash(p: Seq<char>)
    requires
        forall|j: int| 0 <= j < p.len() ==> p[j] != '/',
    ensures
        !has_slash(p),
        seg_of(p) == p,
        rest_of(p) == Seq::<char>::empty(),
{
}

proof fn lemma_drop_front_range(s: Seq<char>, slash: bool, k: int)
    requires
        0 <= k <= s.len(),
        forall|j: int| 0 <= j < k ==> trimmed_char(s[j], slash),
        k == s.len() || !trimmed_char(s[k], slash),
    ensures
        drop_front(s, slash) == s.subrange(k, s.len() as int),
    decreases k,
{
    if k == 0 {
        assert(s.subrange(0, s.len() as int) =~= s);
    } else {
        let t = s.drop_first();
        assert(forall|j: int| 0 <= j < t.len() ==> t[j] == s[j + 1]);
        lemma_drop_front_range(t, slash, k - 1);
        assert(t.subrange(k - 1, t.len() as int) =~= s.subrange(k, s.len() as int));
    }
}

proof fn lemma_drop_back_range(s: Seq<char>, slash: bool, m: int)
    requires
        0 <= m <= s.len(),
        forall|j: int| m <= j < s.len() ==> trimmed_char(s[j], slash),
        m == 0 || !trimmed_char(s[m - 1], slash),
    ensures
        drop_back(s, slash) == s.subrange(0, m),
    decreases s.len() - m,
{
    if m == s.len() {
        if s.len() > 0 && trimmed_char(s.last(), slash) {
            assert(!trimmed_char(s[m - 1], slash));
        }
        assert(s.subrange(0, s.len() as int) =~= s);
    } else {
        let t = s.drop_last();
        lemma_drop_back_range(t, slash, m);
        assert(t.subrange(0, m) =~= s.subrange(0, m));
    }
}

/// Both trim passes together cut `s` to the window `[lo, hi)`.
pub proof fn lemma_trim_pair_range(s: Seq<char>, slash: bool, lo: int, hi: int)
    requires
        0 <= lo <= hi <= s.len(),
        forall|j: int| 0 <= j < lo ==> trimmed_char(s[j], slash),
        lo == s.len() || !trimmed_char(s[lo], slash),
        forall|j: int| hi <= j < s.len() ==> trimmed_char(s[j], slash),
        hi == lo || !trimmed_char(s[hi - 1], slash),
    ensures
        trim_pair(s, slash) == s.subrange(lo, hi),
{
    lemma_drop_front_range(s, slash, lo);
    let f = s.subrange(lo, s.len() as int);
    assert(forall|j: int| 0 <= j < f.len() ==> f[j] == s[lo + j]);
    if lo == s.len() {
        lemma_drop_back_range(f, slash, 0);
        assert(f.subrange(0, 0) =~= s.subrange(lo, hi));
    } else {
        lemma_drop_back_range(f, slash, hi - lo);
        assert(f.subrange(0, hi - lo) =~= s.subrange(lo, hi));
    }
}

/// Whether `c` belongs to the class a trim pass removes.
pub(crate) fn is_trimmed_char(c: char, slash: bool) -> (r: bool)
    ensures
        r == trimmed_char(c, slash),
{
    if slash {
        c == '/'
    } else {
        c == ' ' || c == '\t' || c == '\n' || c == '\u{0B}' || c == '\u{0C}' || c == '\r'
    }
}

/// Cut one character class from both ends of `s`.
pub(crate) fn trim_class(s: &str, slash: bool) -> (r: String)
    ensures
        r@ == trim_pair(s@, slash),
{
    let n = s.unicode_len();
    let mut lo: usize = 0;
    while lo < n && is_trimmed_char(s.get_char(lo), slash)
        invariant
            n == s@.len(),
            lo <= n,
            forall|j: int| 0 <= j < lo ==> trimmed_char(s@[j], slash),
        decreases n - lo,
    {
        lo = lo + 1;
    }
    let mut hi: usize = n;
    while hi > lo && is_trimmed_char(s.get_char(hi - 1), slash)
        invariant
            n == s@.len(),
            lo <= hi <= n,
            forall|j: int| hi <= j < n ==> trimmed_char(s@[j], slash),
        decreases hi,
    {
        hi = hi - 1;
    }
    proof {
        lemma_trim_pair_range(s@, slash, lo as int, hi as int);
    }
    let sub = s.substring_char(lo, hi);
    String::from_str(sub)
}

/// Normalize a raw path as `format_path_spec` describes.
pub fn format_path_str(path: &str, dir: bool) -> (r: String)
    ensures
        r@ == format_path_spec(path@, dir),
{
    let blank_cut = trim_class(path, false);
    let mut r = trim_class(blank_cut.as_str(), true);
    if r.as_str().unicode_len() > 0 && dir {
        r.append("/");
        proof {
            reveal_strlit("/");
            assert(r@ =~= format_path_spec(path@, dir));
        }
    }
    r
}

/// Position of the first separator of `s`, if any.
pub fn find_slash(s: &str) -> (r: Option<usize>)
    ensures
        match r {
            Some(i) => i < s@.len() && s@[i as int] == '/' && first_slash(s@) == i && has_slash(
                s@,
            ),
            None => !has_slash(s@) && seg_of(s@) == s@ && rest_of(s@) == Seq::<char>::empty(),
        },
{
    let n = s.unicode_len();
    let mut i: usize = 0;
    while i < n && s.get_char(i) != '/'
        invariant
            n == s@.len(),
            i <= n,
            forall|j: int| 0 <= j < i ==> s@[j] != '/',
        decreases n - i,
    {
        i = i + 1;
    }
    if i < n {
        proof {
            lemma_first_slash_at(s@, i as int);
        }
        Some(i)
    } else {
        proof {
            lemma_no_slash(s@);
        }
        None
    }
}

} // verus!
