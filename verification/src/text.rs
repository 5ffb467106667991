use vstd::prelude::*;

verus! {

/// The texts of a list of strings.
pub open spec fn texts(v: Seq<String>) -> Seq<Seq<char>> {
    v.map_values(|s: String| s@)
}

/// Appends one character to a string (`String::push`).
#[verifier::external_body]
pub(crate) fn push_char(s: &mut String, c: char)
    ensures
        final(s)@ == old(s)@.push(c),
{
    s.push(c);
}

/// The characters of `s`, in order.
pub fn chars_of(s: &str) -> (v: Vec<char>)
    ensures
        v@ == s@,
{
    broadcast use vstd::string::group_string_axioms;
    let mut v: Vec<char> = Vec::new();
    for c in it: s.chars()
        invariant
            it.seq() == s@,
            v@ == it.seq().take(it.index() as int),
    {
        v.push(c);
    }
    v
}


/// A character with the Unicode `White_Space` property, which is what
/// `char::is_whitespace` tests.
pub open spec fn is_white(c: char) -> bool {
    ||| ('\u{9}' <= c && c <= '\u{d}')
    ||| c == ' '
    ||| c == '\u{85}'
    ||| c == '\u{a0}'
    ||| c == '\u{1680}'
    ||| ('\u{2000}' <= c && c <= '\u{200a}')
    ||| c == '\u{2028}'
    ||| c == '\u{2029}'
    ||| c == '\u{202f}'
    ||| c == '\u{205f}'
    ||| c == '\u{3000}'
}

/// Whether `c` is white space.
pub fn white(c: char) -> (res: bool)
    ensures
        res == is_white(c),
{
    ('\u{9}' <= c && c <= '\u{d}') || c == ' ' || c == '\u{85}' || c == '\u{a0}' || c == '\u{1680}'
        || ('\u{2000}' <= c && c <= '\u{200a}') || c == '\u{2028}' || c == '\u{2029}'
        || c == '\u{202f}' || c == '\u{205f}' || c == '\u{3000}'
}

/// Every character of `s` is white space (so `s.trim()` is empty).
pub open spec fn is_blank(s: Seq<char>) -> bool {
    forall|i: int| 0 <= i < s.len() ==> is_white(#[trigger] s[i])
}

/// The number of white-space characters at the start of `s`.
pub open spec fn lead_white(s: Seq<char>) -> nat
    decreases s.len(),
{
    if s.len() > 0 && is_white(s[0]) {
        1 + lead_white(s.drop_first())
    } else {
        0
    }
}

/// The number of white-space characters at the end of `s`.
pub open spec fn trail_white(s: Seq<char>) -> nat
    decreases s.len(),
{
    if s.len() > 0 && is_white(s.last()) {
        1 + trail_white(s.drop_last())
    } else {
        0
    }
}

/// `s` without its leading and trailing white space (`str::trim`).
pub open spec fn trim(s: Seq<char>) -> Seq<char> {
    let t = s.skip(lead_white(s) as int);
    t.take(t.len() - trail_white(t))
}

proof fn lemma_lead_white_bound(s: Seq<char>)
    ensures
        lead_white(s) <= s.len(),
    decreases s.len(),
{
    if s.len() > 0 && is_white(s[0]) {
        lemma_lead_white_bound(s.drop_first());
    }
}

proof fn lemma_trail_white_bound(s: Seq<char>)
    ensures
        trail_white(s) <= s.len(),
    decreases s.len(),
{
    if s.len() > 0 && is_white(s.last()) {
        lemma_trail_white_bound(s.drop_last());
    }
}

/// A text is blank exactly when trimming leaves nothing of it.
pub proof fn lemma_blank_iff_trim_empty(s: Seq<char>)
    ensures
        is_blank(s) <==> trim(s).len() == 0,
    decreases s.len(),
{
    lemma_lead_white_bound(s);
    let t = s.skip(lead_white(s) as int);
    lemma_trail_white_bound(t);
    if s.len() > 0 {
        lemma_blank_iff_trim_empty(s.drop_first());
        if is_white(s[0]) {
            assert(s.skip(lead_white(s) as int) =~= s.drop_first().skip(lead_white(s.drop_first()) as int));
            if is_blank(s.drop_first()) {
                assert forall|i: int| 0 <= i < s.len() implies is_white(#[trigger] s[i]) by {
                    if i > 0 {
                        assert(s[i] == s.drop_first()[i - 1]);
                    }
                }
            } else {
                let i = choose|i: int| 0 <= i < s.drop_first().len() && !is_white(#[trigger] s.drop_first()[i]);
                assert(!is_white(s[i + 1]));
            }
        } else {
            assert(!is_white(s[0]));
            assert(t =~= s);
            assert(trail_white(t) < t.len()) by {
                lemma_trail_nonwhite(t);
            }
        }
    } else {
        assert(trim(s).len() == 0);
    }
}

proof fn lemma_trail_nonwhite(t: Seq<char>)
    requires
        t.len() > 0,
        !is_white(t[0]),
    ensures
        trail_white(t) < t.len(),
    decreases t.len(),
{
    if is_white(t.last()) {
        if t.len() > 1 {
            assert(t.drop_last()[0] == t[0]);
            lemma_trail_nonwhite(t.drop_last());
        }
    }
}

/// `s` without leading and trailing white space.
pub fn trimmed(s: &String) -> (res: String)
    ensures
        res@ == trim(s@),
{
    let cs = chars_of(s.as_str());
    let n = cs.len();
    let mut a: usize = 0;
    proof {
        lemma_lead_white_bound(s@);
        assert(cs@.skip(0) =~= cs@);
    }
    while a < n && white(cs[a])
        invariant
            cs@ == s@,
            n == cs@.len(),
            a <= n,
            lead_white(s@) == a + lead_white(cs@.skip(a as int)),
        decreases n - a,
    {
        proof {
            assert(cs@.skip(a as int).drop_first() =~= cs@.skip(a + 1));
        }
        a = a + 1;
    }
    let ghost t = cs@.skip(a as int);
    proof {
        assert(lead_white(cs@.skip(a as int)) == 0);
        assert(t.take(t.len() as int) =~= t);
    }
    let mut b: usize = n;
    while b > a && white(cs[b - 1])
        invariant
            cs@ == s@,
            n == cs@.len(),
            a <= b <= n,
            t == cs@.skip(a as int),
            trail_white(t) == (n - b) + trail_white(t.take(b - a)),
        decreases b,
    {
        proof {
            assert(t.take(b - a).drop_last() =~= t.take(b - 1 - a));
            assert(t.take(b - a).last() == cs@[b - 1]);
        }
        b = b - 1;
    }
    proof {
        assert(trail_white(t.take(b - a)) == 0);
    }
    let mut out = String::new();
    let mut i: usize = a;
    while i < b
        invariant
            cs@ == s@,
            n == cs@.len(),
            a <= i <= b <= n,
            out@ == cs@.subrange(a as int, i as int),
        decreases b - i,
    {
        push_char(&mut out, cs[i]);
        proof {
            assert(out@ =~= cs@.subrange(a as int, i + 1));
        }
        i = i + 1;
    }
    proof {
        assert(out@ =~= trim(s@));
    }
    out
}

/// Whether every character of `s` is white space.
pub fn blank(s: &String) -> (res: bool)
    ensures
        res == is_blank(s@),
{
    let cs = chars_of(s.as_str());
    let n = cs.len();
    let mut i: usize = 0;
    while i < n
        invariant
            cs@ == s@,
            n == cs@.len(),
            i <= n,
            forall|j: int| 0 <= j < i ==> is_white(#[trigger] cs@[j]),
        decreases n - i,
    {
        if !white(cs[i]) {
            return false;
        }
        i = i + 1;
    }
    true
}


/// The number of characters `c` at the end of `s`.
pub open spec fn trail_count(s: Seq<char>, c: char) -> nat
    decreases s.len(),
{
    if s.len() > 0 && s.last() == c {
        1 + trail_count(s.drop_last(), c)
    } else {
        0
    }
}

/// There are no more characters `c` at the end than characters in all.
pub proof fn lemma_trail_count_bound(s: Seq<char>, c: char)
    ensures
        trail_count(s, c) <= s.len(),
    decreases s.len(),
{
    if s.len() > 0 && s.last() == c {
        lemma_trail_count_bound(s.drop_last(), c);
    }
}

/// `s` without the characters `c` at its end (`str::trim_end_matches` with a character).
pub open spec fn trim_end_char(s: Seq<char>, c: char) -> Seq<char> {
    s.take(s.len() - trail_count(s, c))
}

/// `s` without the characters `c` at its end.
pub fn without_trailing(s: &String, c: char) -> (res: String)
    ensures
        res@ == trim_end_char(s@, c),
{
    let cs = chars_of(s.as_str());
    let n = cs.len();
    let mut b: usize = n;
    proof {
        assert(cs@.take(n as int) =~= cs@);
    }
    while b > 0 && cs[b - 1] == c
        invariant
            cs@ == s@,
            n == cs@.len(),
            b <= n,
            trail_count(s@, c) == (n - b) + trail_count(cs@.take(b as int), c),
        decreases b,
    {
        proof {
            assert(cs@.take(b as int).drop_last() =~= cs@.take(b - 1));
        }
        b = b - 1;
    }
    let mut out = String::new();
    let mut i: usize = 0;
    while i < b
        invariant
            cs@ == s@,
            n == cs@.len(),
            i <= b <= n,
            out@ == cs@.take(i as int),
        decreases b - i,
    {
        push_char(&mut out, cs[i]);
        proof {
            assert(out@ =~= cs@.take(i + 1));
        }
        i = i + 1;
    }
    out
}

/// `q` occurs in `s` as a run of consecutive characters (`str::contains`).
pub open spec fn occurs_in(q: Seq<char>, s: Seq<char>) -> bool {
    exists|i: int| 0 <= i && i + q.len() <= s.len() && #[trigger] s.subrange(i, i + q.len()) == q
}

/// Whether `q` occurs in `s`.
pub fn occurs(q: &String, s: &String) -> (res: bool)
    ensures
        res == occurs_in(q@, s@),
{
    let qs = chars_of(q.as_str());
    let ss = chars_of(s.as_str());
    let m = qs.len();
    let n = ss.len();
    if m > n {
        proof {
            if occurs_in(q@, s@) {
                let i = choose|i: int| 0 <= i && i + q@.len() <= s@.len() && #[trigger] s@.subrange(i, i + q@.len()) == q@;
            }
        }
        return false;
    }
    let mut i: usize = 0;
    while i <= n - m
        invariant
            qs@ == q@,
            ss@ == s@,
            m == qs@.len(),
            n == ss@.len(),
            m <= n,
            i <= n - m + 1,
            forall|j: int| 0 <= j < i ==> #[trigger] s@.subrange(j, j + m) != q@,
        decreases n - m + 1 - i,
    {
        let mut k: usize = 0;
        while k < m && ss[i + k] == qs[k]
            invariant
                qs@ == q@,
                ss@ == s@,
                m == qs@.len(),
                n == ss@.len(),
                i + m <= n,
                k <= m,
                forall|t: int| 0 <= t < k ==> ss@[i + t] == qs@[t],
            decreases m - k,
        {
            k = k + 1;
        }
        if k == m {
            proof {
                assert(s@.subrange(i as int, i + m) =~= q@);
            }
            return true;
        }
        proof {
            assert(s@.subrange(i as int, i + m)[k as int] != q@[k as int]);
        }
        i = i + 1;
    }
    proof {
        if occurs_in(q@, s@) {
            let j = choose|j: int| 0 <= j && j + q@.len() <= s@.len() && #[trigger] s@.subrange(j, j + q@.len()) == q@;
            assert(s@.subrange(j, j + m) != q@);
        }
    }
    false
}

/// The part of `s` after its last `sep` (all of `s` where it holds none):
/// what `s.split(sep).last()` and `s.rsplit(sep).next()` give.
pub open spec fn after_last(s: Seq<char>, sep: char) -> Seq<char>
    decreases s.len(),
{
    if s.len() == 0 {
        s
    } else if s.last() == sep {
        Seq::empty()
    } else {
        after_last(s.drop_last(), sep).push(s.last())
    }
}

/// The part of `s` after its last `sep`.
pub fn tail_after(s: &String, sep: char) -> (res: String)
    ensures
        res@ == after_last(s@, sep),
{
    let cs = chars_of(s.as_str());
    let n = cs.len();
    let mut a: usize = n;
    proof {
        assert(cs@.take(n as int) =~= cs@);
        assert(cs@.subrange(n as int, n as int) =~= Seq::<char>::empty());
        assert(after_last(s@, sep) + Seq::<char>::empty() =~= after_last(s@, sep));
    }
    while a > 0 && cs[a - 1] != sep
        invariant
            cs@ == s@,
            a <= n == cs@.len(),
            after_last(s@, sep) == after_last(cs@.take(a as int), sep) + cs@.subrange(a as int, n as int),
        decreases a,
    {
        proof {
            let t = cs@.take(a as int);
            assert(t.drop_last() =~= cs@.take(a - 1));
            assert(t.last() == cs@[a - 1]);
            assert(after_last(t, sep) == after_last(cs@.take(a - 1), sep).push(cs@[a - 1]));
            assert(after_last(cs@.take(a - 1), sep).push(cs@[a - 1]) + cs@.subrange(a as int, n as int)
                =~= after_last(cs@.take(a - 1), sep) + cs@.subrange(a - 1, n as int));
        }
        a = a - 1;
    }
    proof {
        let t = cs@.take(a as int);
        if a > 0 {
            assert(t.last() == sep);
        }
        assert(after_last(t, sep) =~= Seq::<char>::empty());
    }
    let mut out = String::new();
    let mut i: usize = a;
    while i < n
        invariant
            cs@ == s@,
            a <= i <= n == cs@.len(),
            out@ == cs@.subrange(a as int, i as int),
        decreases n - i,
    {
        push_char(&mut out, cs[i]);
        proof {
            assert(out@ =~= cs@.subrange(a as int, i + 1));
        }
        i = i + 1;
    }
    proof {
        assert(after_last(s@, sep) =~= out@);
    }
    out
}

/// The part after the last separator of `a + b`, where `a` ends with the
/// separator and `b` holds none, is `b`.
pub proof fn lemma_after_last_suffix(a: Seq<char>, b: Seq<char>, sep: char)
    requires
        a.len() > 0,
        a.last() == sep,
        forall|i: int| 0 <= i < b.len() ==> b[i] != sep,
    ensures
        after_last(a + b, sep) == b,
    decreases b.len(),
{
    if b.len() == 0 {
        assert(a + b =~= a);
    } else {
        let c = a + b;
        assert(c.drop_last() =~= a + b.drop_last());
        assert(c.last() == b.last());
        lemma_after_last_suffix(a, b.drop_last(), sep);
        assert(b.drop_last().push(b.last()) =~= b);
    }
}

/// A text occurs in any text that holds it between two others.
pub proof fn law_occurs_in_middle(a: Seq<char>, q: Seq<char>, b: Seq<char>)
    ensures
        occurs_in(q, a + q + b),
{
    let s = a + q + b;
    assert(s.subrange(a.len() as int, (a.len() + q.len()) as int) =~= q);
}

/// A text holds no `sep` where the part after its last `sep` is all of it.
pub proof fn law_after_last_without_sep(s: Seq<char>, sep: char)
    requires
        forall|i: int| 0 <= i < s.len() ==> s[i] != sep,
    ensures
        after_last(s, sep) == s,
    decreases s.len(),
{
    if s.len() > 0 {
        law_after_last_without_sep(s.drop_last(), sep);
        assert(s.drop_last().push(s.last()) =~= s);
    }
}

/// The part after the last `sep` of `a + [sep] + b`, where `b` holds no
/// `sep`, is `b`.
pub proof fn law_after_last_of_joined(a: Seq<char>, b: Seq<char>, sep: char)
    requires
        forall|i: int| 0 <= i < b.len() ==> b[i] != sep,
    ensures
        after_last(a + seq![sep] + b, sep) == b,
{
    let c = a + seq![sep];
    assert(c.last() == sep);
    lemma_after_last_suffix(c, b, sep);
}

/// What `str::to_lowercase` gives for a text: a function of the text alone,
/// by the Unicode lowercase mapping that std implements.
pub uninterp spec fn lowercase(s: Seq<char>) -> Seq<char>;

/// `s` in lower case: calls `str::to_lowercase`. Its contract claims only
/// that the result is the one fixed lowercase mapping of the text; the
/// Unicode case tables are not restated here.
#[verifier::external_body]
pub(crate) fn to_lower(s: &String) -> (res: String)
    ensures
        res@ == lowercase(s@),
{
    s.to_lowercase()
}

} // verus!
