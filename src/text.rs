//! Character-level helpers shared by the parsers and renderers.

use vstd::prelude::*;
use vstd::string::StrSliceExecFns;

verus! {

/// The decimal digit for `d < 10`.
pub open spec fn digit_char(d: nat) -> char {
    if d == 0 {
        '0'
    } else if d == 1 {
        '1'
    } else if d == 2 {
        '2'
    } else if d == 3 {
        '3'
    } else if d == 4 {
        '4'
    } else if d == 5 {
        '5'
    } else if d == 6 {
        '6'
    } else if d == 7 {
        '7'
    } else if d == 8 {
        '8'
    } else {
        '9'
    }
}

/// `n` written in decimal, without leading zeros.
pub open spec fn decimal(n: nat) -> Seq<char>
    decreases n,
{
    if n < 10 {
        seq![digit_char(n)]
    } else {
        decimal(n / 10).push(digit_char(n % 10))
    }
}

fn digit(d: u64) -> (r: char)
    requires
        d < 10,
    ensures
        r == digit_char(d as nat),
{
    if d == 0 {
        '0'
    } else if d == 1 {
        '1'
    } else if d == 2 {
        '2'
    } else if d == 3 {
        '3'
    } else if d == 4 {
        '4'
    } else if d == 5 {
        '5'
    } else if d == 6 {
        '6'
    } else if d == 7 {
        '7'
    } else if d == 8 {
        '8'
    } else {
        '9'
    }
}

/// The decimal characters of `n`.
pub fn decimal_chars(n: u64) -> (r: Vec<char>)
    ensures
        r@ == decimal(n as nat),
    decreases n,
{
    if n < 10 {
        vec![digit(n)]
    } else {
        let mut v = decimal_chars(n / 10);
        v.push(digit(n % 10));
        v
    }
}

/// Unicode `White_Space`: the characters that `char::is_whitespace`,
/// `str::trim` and a regular expression's `\s` treat as blank.
pub open spec fn is_space(c: char) -> bool {
    ('\u{9}' <= c && c <= '\u{d}') || c == ' ' || c == '\u{85}' || c == '\u{a0}'
        || c == '\u{1680}' || ('\u{2000}' <= c && c <= '\u{200a}') || c == '\u{2028}'
        || c == '\u{2029}' || c == '\u{202f}' || c == '\u{205f}' || c == '\u{3000}'
}

pub fn space(c: char) -> (r: bool)
    ensures
        r == is_space(c),
{
    ('\u{9}' <= c && c <= '\u{d}') || c == ' ' || c == '\u{85}' || c == '\u{a0}'
        || c == '\u{1680}' || ('\u{2000}' <= c && c <= '\u{200a}') || c == '\u{2028}'
        || c == '\u{2029}' || c == '\u{202f}' || c == '\u{205f}' || c == '\u{3000}'
}

pub open spec fn is_digit(c: char) -> bool {
    '0' <= c && c <= '9'
}

/// The characters of `s`, in order.
pub fn chars_of(s: &str) -> (r: Vec<char>)
    ensures
        r@ == s@,
{
    let n = s.unicode_len();
    let mut out: Vec<char> = Vec::new();
    let mut i: usize = 0;
    while i < n
        invariant
            n == s@.len(),
            i <= n,
            out@ == s@.subrange(0, i as int),
        decreases n - i,
    {
        out.push(s.get_char(i));
        i += 1;
    }
    out
}

/// Relies on `String: FromIterator<&char>`: the string holds the given characters in order.
#[verifier::external_body]
pub(crate) fn string_of(v: &[char]) -> (r: String)
    ensures
        r@ == v@,
{
    v.iter().collect()
}

/// `s` with leading blanks removed.
pub open spec fn trim_start(s: Seq<char>) -> Seq<char>
    decreases s.len(),
{
    if s.len() > 0 && is_space(s[0]) {
        trim_start(s.drop_first())
    } else {
        s
    }
}

/// `s` with trailing blanks removed.
pub open spec fn trim_end(s: Seq<char>) -> Seq<char>
    decreases s.len(),
{
    if s.len() > 0 && is_space(s.last()) {
        trim_end(s.drop_last())
    } else {
        s
    }
}

/// `s` with blanks removed at both ends, as `str::trim` does.
pub open spec fn trim(s: Seq<char>) -> Seq<char> {
    trim_end(trim_start(s))
}

/// `s` with every run of blanks replaced by a single space.
pub open spec fn collapse(s: Seq<char>) -> Seq<char>
    decreases s.len(),
{
    if s.len() == 0 {
        s
    } else {
        let p = s.drop_last();
        if !is_space(s.last()) {
            collapse(p).push(s.last())
        } else if p.len() > 0 && is_space(p.last()) {
            collapse(p)
        } else {
            collapse(p).push(' ')
        }
    }
}

/// The blank-separated words of `s`, as `str::split_whitespace` yields them.
pub open spec fn words(s: Seq<char>) -> Seq<Seq<char>>
    decreases s.len(),
{
    if s.len() == 0 {
        Seq::empty()
    } else {
        let p = s.drop_last();
        let w = words(p);
        let c = s.last();
        if is_space(c) {
            w
        } else if p.len() > 0 && !is_space(p.last()) {
            w.update(w.len() - 1, w.last().push(c))
        } else {
            w.push(seq![c])
        }
    }
}

/// The position of the first blank in `s`, or its length when it has none.
pub open spec fn space_at(s: Seq<char>) -> nat
    decreases s.len(),
{
    if s.len() == 0 || is_space(s[0]) {
        0
    } else {
        1 + space_at(s.drop_first())
    }
}

pub proof fn lemma_space_at(s: Seq<char>, i: int)
    requires
        0 <= i <= s.len(),
        forall|j: int| 0 <= j < i ==> !is_space(#[trigger] s[j]),
        i == s.len() || is_space(s[i]),
    ensures
        space_at(s) == i,
    decreases i,
{
    if i > 0 {
        let t = s.drop_first();
        assert forall|j: int| 0 <= j < i - 1 implies !is_space(#[trigger] t[j]) by {
            assert(t[j] == s[j + 1]);
        }
        lemma_space_at(t, i - 1);
    }
}

/// Every blank in `s` is a single space between two other characters.
pub open spec fn single_spaced(s: Seq<char>) -> bool {
    &&& s.len() > 0
    &&& !is_space(s[0])
    &&& !is_space(s.last())
    &&& forall|i: int|
        0 <= i < s.len() && is_space(#[trigger] s[i]) ==> s[i] == ' ' && i > 0 && !is_space(
            s[i - 1],
        )
}

proof fn lemma_collapse_unchanged(s: Seq<char>)
    requires
        forall|i: int|
            0 <= i < s.len() && is_space(#[trigger] s[i]) ==> s[i] == ' ' && i > 0 && !is_space(
                s[i - 1],
            ),
    ensures
        collapse(s) == s,
    decreases s.len(),
{
    if s.len() > 0 {
        let p = s.drop_last();
        assert forall|i: int| 0 <= i < p.len() && is_space(#[trigger] p[i]) implies p[i] == ' '
            && i > 0 && !is_space(p[i - 1]) by {
            assert(p[i] == s[i]);
        }
        lemma_collapse_unchanged(p);
        assert(p.push(s.last()) == s);
    }
}

/// Text that is single-spaced is already collapsed and trimmed.
pub proof fn lemma_single_spaced(s: Seq<char>)
    requires
        single_spaced(s),
    ensures
        collapse(s) == s,
        trim(s) == s,
{
    lemma_collapse_unchanged(s);
}

/// Collapsing two pieces separately gives the same as collapsing them together,
/// unless the first ends and the second starts with a blank.
pub proof fn lemma_collapse_concat(p: Seq<char>, q: Seq<char>)
    requires
        !(p.len() > 0 && q.len() > 0 && is_space(p.last()) && is_space(q[0])),
    ensures
        collapse(p + q) == collapse(p) + collapse(q),
    decreases q.len(),
{
    if q.len() == 0 {
        assert(p + q == p);
        assert(collapse(p) + collapse(q) == collapse(p));
    } else {
        let q1 = q.drop_last();
        assert((p + q).drop_last() == p + q1);
        assert((p + q).last() == q.last());
        if q1.len() > 0 {
            assert(q1[0] == q[0]);
            lemma_collapse_concat(p, q1);
            assert((p + q1).last() == q1.last());
            assert(collapse(p) + collapse(q1).push(q.last()) == (collapse(p) + collapse(q1)).push(
                q.last(),
            ));
            assert(collapse(p) + collapse(q1).push(' ') == (collapse(p) + collapse(q1)).push(
                ' ',
            ));
        } else {
            assert(p + q1 == p);
            assert(collapse(q1) == Seq::<char>::empty());
            assert(collapse(p) + collapse(q) == collapse(p).push(if is_space(q.last()) {
                ' '
            } else {
                q.last()
            }));
        }
    }
}

/// A run of blanks collapses to one space.
pub proof fn lemma_collapse_blanks(w: Seq<char>)
    requires
        w.len() > 0,
        forall|i: int| 0 <= i < w.len() ==> is_space(#[trigger] w[i]),
    ensures
        collapse(w) == seq![' '],
    decreases w.len(),
{
    let p = w.drop_last();
    assert(is_space(w.last()));
    if p.len() > 0 {
        assert forall|i: int| 0 <= i < p.len() implies is_space(#[trigger] p[i]) by {
            assert(p[i] == w[i]);
        }
        assert(is_space(p.last()));
        lemma_collapse_blanks(p);
    } else {
        assert(collapse(p) == Seq::<char>::empty());
        assert(Seq::<char>::empty().push(' ') == seq![' ']);
    }
}

/// The only blank that collapsed text holds is the plain space.
pub proof fn lemma_collapse_spaces(s: Seq<char>)
    ensures
        forall|i: int|
            0 <= i < collapse(s).len() && is_space(#[trigger] collapse(s)[i]) ==> collapse(s)[i]
                == ' ',
    decreases s.len(),
{
    if s.len() > 0 {
        let p = s.drop_last();
        lemma_collapse_spaces(p);
        let cp = collapse(p);
        assert forall|i: int|
            0 <= i < collapse(s).len() && is_space(#[trigger] collapse(s)[i]) implies collapse(
            s,
        )[i] == ' ' by {
            if i < cp.len() {
                assert(collapse(s)[i] == cp[i]);
            }
        }
    }
}

/// Collapsing keeps a first character that is not blank.
pub proof fn lemma_collapse_first(s: Seq<char>)
    requires
        s.len() > 0,
        !is_space(s[0]),
    ensures
        collapse(s).len() > 0,
        collapse(s)[0] == s[0],
{
    let head = seq![s[0]];
    let rest = s.drop_first();
    assert(s == head + rest);
    lemma_collapse_concat(head, rest);
    assert(head.drop_last() == Seq::<char>::empty());
    assert(head.last() == s[0]);
    assert(collapse(Seq::<char>::empty()) == Seq::<char>::empty());
    assert(collapse(head) == Seq::<char>::empty().push(s[0]));
    assert(collapse(s) == collapse(head) + collapse(rest));
}

/// The characters of `v` from `from` up to `to`.
pub fn copy_range(v: &Vec<char>, from: usize, to: usize) -> (r: Vec<char>)
    requires
        from <= to <= v@.len(),
    ensures
        r@ == v@.subrange(from as int, to as int),
{
    let mut out: Vec<char> = Vec::new();
    let mut i = from;
    while i < to
        invariant
            from <= i <= to <= v@.len(),
            out@ == v@.subrange(from as int, i as int),
        decreases to - i,
    {
        out.push(v[i]);
        i += 1;
    }
    out
}

/// Appends the characters of `w` to `v`.
pub fn push_all(v: &mut Vec<char>, w: &Vec<char>)
    ensures
        final(v)@ == old(v)@ + w@,
{
    let mut i: usize = 0;
    while i < w.len()
        invariant
            i <= w@.len(),
            v@ == old(v)@ + w@.subrange(0, i as int),
        decreases w@.len() - i,
    {
        v.push(w[i]);
        i += 1;
    }
}

/// The position of the first character of `v` at or after `from` that is not blank.
pub fn skip_spaces(v: &Vec<char>, from: usize) -> (r: usize)
    requires
        from <= v@.len(),
    ensures
        from <= r <= v@.len(),
        trim_start(v@.subrange(from as int, v@.len() as int)) == v@.subrange(
            r as int,
            v@.len() as int,
        ),
{
    let n = v.len();
    let mut i = from;
    while i < n && space(v[i])
        invariant
            from <= i <= n == v@.len(),
            trim_start(v@.subrange(from as int, n as int)) == trim_start(
                v@.subrange(i as int, n as int),
            ),
        decreases n - i,
    {
        assert(v@.subrange(i as int, n as int).drop_first() == v@.subrange(i + 1, n as int));
        i += 1;
    }
    i
}

/// `v` without blanks at either end.
pub fn trim_chars(v: &Vec<char>) -> (r: Vec<char>)
    ensures
        r@ == trim(v@),
{
    let n = v.len();
    let i = skip_spaces(v, 0);
    assert(v@.subrange(0, n as int) == v@);
    let mut j = n;
    while j > i && space(v[j - 1])
        invariant
            i <= j <= n == v@.len(),
            trim(v@) == trim_end(v@.subrange(i as int, j as int)),
        decreases j,
    {
        assert(v@.subrange(i as int, j as int).drop_last() == v@.subrange(i as int, j - 1));
        j -= 1;
    }
    copy_range(v, i, j)
}

/// The position of the first blank in `v` at or after `from`, or the length of `v`.
pub fn find_space(v: &Vec<char>, from: usize) -> (r: usize)
    requires
        from <= v@.len(),
    ensures
        from <= r <= v@.len(),
        r == from + space_at(v@.subrange(from as int, v@.len() as int)),
{
    let n = v.len();
    let mut i = from;
    while i < n && !space(v[i])
        invariant
            from <= i <= n == v@.len(),
            forall|j: int| from <= j < i ==> !is_space(#[trigger] v@[j]),
        decreases n - i,
    {
        i += 1;
    }
    let ghost t = v@.subrange(from as int, n as int);
    assert forall|j: int| 0 <= j < i - from implies !is_space(#[trigger] t[j]) by {
        assert(t[j] == v@[j + from]);
    }
    proof {
        lemma_space_at(t, i - from);
    }
    i
}

/// `v` with every run of blanks replaced by one space.
pub fn collapse_chars(v: &Vec<char>) -> (r: Vec<char>)
    ensures
        r@ == collapse(v@),
{
    let mut out: Vec<char> = Vec::new();
    let mut i: usize = 0;
    while i < v.len()
        invariant
            i <= v@.len(),
            out@ == collapse(v@.subrange(0, i as int)),
        decreases v@.len() - i,
    {
        let ghost p = v@.subrange(0, i as int);
        assert(v@.subrange(0, i + 1).drop_last() == p);
        let c = v[i];
        if !space(c) {
            out.push(c);
        } else if i == 0 || !space(v[i - 1]) {
            out.push(' ');
        }
        i += 1;
    }
    assert(v@.subrange(0, v@.len() as int) == v@);
    out
}

/// The blank-separated words of `v` from `from` on.
pub fn words_from(v: &Vec<char>, from: usize) -> (r: Vec<String>)
    requires
        from <= v@.len(),
    ensures
        r@.map_values(|r: String| r@) == words(v@.subrange(from as int, v@.len() as int)),
{
    let mut done: Vec<String> = Vec::new();
    let mut cur: Vec<char> = Vec::new();
    let mut i = from;
    while i < v.len()
        invariant
            from <= i <= v@.len(),
            cur@.len() > 0 <==> (i > from && !is_space(v@[i - 1])),
            words(v@.subrange(from as int, i as int)) == (if cur@.len() == 0 {
                done@.map_values(|r: String| r@)
            } else {
                done@.map_values(|r: String| r@).push(cur@)
            }),
        decreases v@.len() - i,
    {
        let ghost sub = v@.subrange(from as int, i as int);
        assert(v@.subrange(from as int, i + 1).drop_last() == sub);
        let c = v[i];
        assert(v@.subrange(from as int, i + 1).last() == c);
        assert(sub.len() > 0 ==> sub.last() == v@[i - 1]);
        if space(c) {
            if cur.len() > 0 {
                let ghost before = done@;
                let w = string_of(cur.as_slice());
                done.push(w);
                assert(done@.map_values(|r: String| r@) == before.map_values(|r: String| r@).push(
                    cur@,
                ));
                cur = Vec::new();
            }
        } else {
            let ghost dv = done@.map_values(|r: String| r@);
            let ghost old_cur = cur@;
            cur.push(c);
            proof {
                if old_cur.len() == 0 {
                    assert(cur@ =~= seq![c]);
                } else {
                    assert(dv.push(old_cur).update(dv.len() as int, old_cur.push(c)) =~= dv.push(
                        cur@,
                    ));
                }
            }
        }
        i += 1;
    }
    if cur.len() > 0 {
        let ghost before = done@;
        let w = string_of(cur.as_slice());
        done.push(w);
        assert(done@.map_values(|r: String| r@) == before.map_values(|r: String| r@).push(cur@));
    }
    assert(v@.subrange(from as int, v@.len() as int) == v@.subrange(from as int, i as int));
    done
}

} // verus!
