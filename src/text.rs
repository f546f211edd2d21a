//! Character-level helpers on names and release text.
use vstd::prelude::*;
use vstd::string::*;

verus! {

/// `suf` is a suffix of `s`.
pub open spec fn has_suffix(s: Seq<char>, suf: Seq<char>) -> bool {
    suf.len() <= s.len() && s.subrange(s.len() - suf.len(), s.len() as int) == suf
}

/// `pre` is a prefix of `s`.
pub open spec fn has_prefix(s: Seq<char>, pre: Seq<char>) -> bool {
    pre.len() <= s.len() && s.subrange(0, pre.len() as int) == pre
}

/// `sub` occurs in `s` starting at position `i`.
pub open spec fn occurs_at(s: Seq<char>, sub: Seq<char>, i: int) -> bool {
    0 <= i && i + sub.len() <= s.len() && s.subrange(i, i + sub.len()) == sub
}

/// `sub` occurs somewhere in `s`.
pub open spec fn has_infix(s: Seq<char>, sub: Seq<char>) -> bool {
    exists|i: int| occurs_at(s, sub, i)
}

/// `s` with every leading `c` removed.
pub open spec fn strip_leading(s: Seq<char>, c: char) -> Seq<char>
    decreases s.len(),
{
    if s.len() > 0 && s[0] == c {
        strip_leading(s.drop_first(), c)
    } else {
        s
    }
}

/// Lexicographic order on character sequences, by code point.
pub open spec fn lex_less(a: Seq<char>, b: Seq<char>) -> bool
    decreases a.len(),
{
    if a.len() == 0 {
        b.len() > 0
    } else if b.len() == 0 {
        false
    } else if a[0] != b[0] {
        (a[0] as u32) < (b[0] as u32)
    } else {
        lex_less(a.drop_first(), b.drop_first())
    }
}

/// Those entries of `lines` that are not empty, in order.
pub open spec fn non_empty(lines: Seq<Seq<char>>) -> Seq<Seq<char>>
    decreases lines.len(),
{
    if lines.len() == 0 {
        Seq::empty()
    } else if lines.last().len() > 0 {
        non_empty(lines.drop_last()).push(lines.last())
    } else {
        non_empty(lines.drop_last())
    }
}

/// What `str::to_lowercase` returns for a string.
pub uninterp spec fn lower_of(s: Seq<char>) -> Seq<char>;

/// What `str::trim` returns for a string.
pub uninterp spec fn trimmed_of(s: Seq<char>) -> Seq<char>;

/// What `str::lines` yields for a string, each line as a sequence of characters.
pub uninterp spec fn lines_of(s: Seq<char>) -> Seq<Seq<char>>;

/// Relies on `str::to_lowercase`: the lower-case form depends on the characters alone.
#[verifier::external_body]
pub(crate) fn lowercase(s: &str) -> (r: String)
    ensures
        r@ == lower_of(s@),
{
    s.to_lowercase()
}

/// Relies on `str::trim`: leading and trailing white space removed, a function of the text.
#[verifier::external_body]
pub(crate) fn trim(s: &str) -> (r: String)
    ensures
        r@ == trimmed_of(s@),
{
    s.trim().to_string()
}

/// Relies on `str::lines`: the text split at line ends, a function of the text.
#[verifier::external_body]
pub(crate) fn lines(s: &str) -> (r: Vec<String>)
    ensures
        r.deep_view() == lines_of(s@),
{
    s.lines().map(String::from).collect()
}

/// Whether `s` ends with `suf`.
pub fn ends_with(s: &str, suf: &str) -> (r: bool)
    ensures
        r == has_suffix(s@, suf@),
{
    let n = s.unicode_len();
    let m = suf.unicode_len();
    if m > n {
        return false;
    }
    let off = n - m;
    let mut i: usize = 0;
    while i < m
        invariant
            n == s@.len(),
            m == suf@.len(),
            off == n - m,
            i <= m,
            forall|j: int| 0 <= j < i ==> s@[off + j] == suf@[j],
        decreases m - i,
    {
        if s.get_char(off + i) != suf.get_char(i) {
            assert(s@.subrange(off as int, n as int)[i as int] != suf@[i as int]);
            return false;
        }
        i += 1;
    }
    assert(s@.subrange(off as int, n as int) =~= suf@);
    true
}

/// Whether `sub` occurs at position `i` of `s`.
fn matches_at(s: &str, sub: &str, i: usize) -> (r: bool)
    requires
        i + sub@.len() <= s@.len(),
    ensures
        r == occurs_at(s@, sub@, i as int),
{
    let n = s.unicode_len();
    let m = sub.unicode_len();
    let mut k: usize = 0;
    while k < m
        invariant
            m == sub@.len(),
            n == s@.len(),
            i + m <= n,
            k <= m,
            forall|j: int| 0 <= j < k ==> s@[i + j] == sub@[j],
        decreases m - k,
    {
        if s.get_char(i + k) != sub.get_char(k) {
            assert(s@.subrange(i as int, i + m)[k as int] != sub@[k as int]);
            return false;
        }
        k += 1;
    }
    assert(s@.subrange(i as int, i + m) =~= sub@);
    true
}

/// Whether `sub` occurs anywhere in `s`.
pub fn contains(s: &str, sub: &str) -> (r: bool)
    ensures
        r == has_infix(s@, sub@),
{
    let n = s.unicode_len();
    let m = sub.unicode_len();
    if m > n {
        return false;
    }
    let mut i: usize = 0;
    while i <= n - m
        invariant
            n == s@.len(),
            m == sub@.len(),
            m <= n,
            i <= n - m + 1,
            forall|j: int| 0 <= j < i ==> !occurs_at(s@, sub@, j),
        decreases n - m + 1 - i,
    {
        if matches_at(s, sub, i) {
            return true;
        }
        if i == n - m {
            return false;
        }
        i += 1;
    }
    false
}

/// Whether `s` starts with `pre`.
pub fn starts_with(s: &str, pre: &str) -> (r: bool)
    ensures
        r == has_prefix(s@, pre@),
{
    let n = s.unicode_len();
    let m = pre.unicode_len();
    if m > n {
        return false;
    }
    let r = matches_at(s, pre, 0);
    assert(s@.subrange(0, m as int) =~= s@.subrange(0, 0 + m));
    r
}

proof fn lemma_strip_skip(s: Seq<char>, c: char, i: int)
    requires
        0 <= i < s.len(),
        forall|j: int| 0 <= j <= i ==> s[j] == c,
    ensures
        strip_leading(s, c) == strip_leading(s.subrange(i + 1, s.len() as int), c),
    decreases i,
{
    if i == 0 {
        assert(s.drop_first() =~= s.subrange(1, s.len() as int));
    } else {
        let t = s.drop_first();
        lemma_strip_skip(t, c, i - 1);
        assert(t.subrange(i, t.len() as int) =~= s.subrange(i + 1, s.len() as int));
    }
}

/// `s` without its leading `c` characters.
pub fn trim_start_char(s: &str, c: char) -> (r: String)
    ensures
        r@ == strip_leading(s@, c),
{
    let n = s.unicode_len();
    let mut i: usize = 0;
    while i < n && s.get_char(i) == c
        invariant
            n == s@.len(),
            i <= n,
            forall|j: int| 0 <= j < i ==> s@[j] == c,
        decreases n - i,
    {
        i += 1;
    }
    proof {
        if i > 0 {
            lemma_strip_skip(s@, c, i - 1);
        } else {
            assert(s@.subrange(0, n as int) =~= s@);
        }
    }
    assert(!(i < n && s@[i as int] == c));
    let rest = s.substring_char(i, n);
    rest.to_string()
}

proof fn lemma_lex_skip(a: Seq<char>, b: Seq<char>, i: int)
    requires
        0 <= i < a.len(),
        i < b.len(),
        forall|j: int| 0 <= j <= i ==> a[j] == b[j],
    ensures
        lex_less(a, b) == lex_less(a.subrange(i + 1, a.len() as int), b.subrange(i + 1, b.len() as int)),
    decreases i,
{
    if i == 0 {
        assert(a.drop_first() =~= a.subrange(1, a.len() as int));
        assert(b.drop_first() =~= b.subrange(1, b.len() as int));
    } else {
        let a1 = a.drop_first();
        let b1 = b.drop_first();
        lemma_lex_skip(a1, b1, i - 1);
        assert(a1.subrange(i, a1.len() as int) =~= a.subrange(i + 1, a.len() as int));
        assert(b1.subrange(i, b1.len() as int) =~= b.subrange(i + 1, b.len() as int));
    }
}

/// Whether `a` comes before `b` in code-point order.
pub fn str_less(a: &str, b: &str) -> (r: bool)
    ensures
        r == lex_less(a@, b@),
{
    let n = a.unicode_len();
    let m = b.unicode_len();
    let mut i: usize = 0;
    while i < n && i < m && a.get_char(i) == b.get_char(i)
        invariant
            n == a@.len(),
            m == b@.len(),
            i <= n,
            i <= m,
            forall|j: int| 0 <= j < i ==> a@[j] == b@[j],
        decreases n - i,
    {
        i += 1;
    }
    let ghost ra = a@.subrange(i as int, n as int);
    let ghost rb = b@.subrange(i as int, m as int);
    proof {
        if i > 0 {
            lemma_lex_skip(a@, b@, i - 1);
        } else {
            assert(ra =~= a@);
            assert(rb =~= b@);
        }
    }
    if i == n {
        i < m
    } else if i == m {
        false
    } else {
        let x = a.get_char(i);
        let y = b.get_char(i);
        assert(ra[0] == x && rb[0] == y);
        (x as u32) < (y as u32)
    }
}

/// The non-empty trimmed lines of a release body, in order.
pub fn changelog_lines(body: &str) -> (r: Vec<String>)
    ensures
        r.deep_view() == non_empty(lines_of(body@).map_values(|l: Seq<char>| trimmed_of(l))),
{
    let raw = lines(body);
    let ghost trimmed = raw.deep_view().map_values(|l: Seq<char>| trimmed_of(l));
    let mut out: Vec<String> = Vec::new();
    let mut i: usize = 0;
    while i < raw.len()
        invariant
            i <= raw@.len(),
            trimmed == raw.deep_view().map_values(|l: Seq<char>| trimmed_of(l)),
            out.deep_view() == non_empty(trimmed.subrange(0, i as int)),
        decreases raw@.len() - i,
    {
        let t = trim(raw[i].as_str());
        let ghost pre = trimmed.subrange(0, i as int);
        assert(trimmed.subrange(0, i + 1).drop_last() =~= pre);
        assert(trimmed.subrange(0, i + 1).last() == t@);
        if t.as_str().unicode_len() > 0 {
            let ghost before = out.deep_view();
            out.push(t);
            assert(out.deep_view() =~= before.push(t@));
        }
        i += 1;
    }
    assert(trimmed.subrange(0, raw@.len() as int) =~= trimmed);
    out
}

} // verus!
