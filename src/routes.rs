//! Route numbers and the order in which a stop's routes are listed.

use vstd::prelude::*;
use vstd::relations::{sorted_by, total_ordering};
use crate::text::{chars_of, decimal, decimal_chars, is_digit, string_of};

verus! {

/// A route number as the upstream service sends it: a JSON string (`"BLUE"`) or a
/// JSON number (`16`).
pub enum RouteNumber {
    Text(String),
    Number(u64),
}

/// The canonical text of a route number.
pub open spec fn route_text(r: RouteNumber) -> Seq<char> {
    match r {
        RouteNumber::Text(s) => s@,
        RouteNumber::Number(n) => decimal(n as nat),
    }
}

/// The route number as text; a number keeps its decimal digits.
pub fn route_number_text(r: &RouteNumber) -> (s: String)
    ensures
        s@ == route_text(*r),
{
    match r {
        RouteNumber::Text(t) => t.clone(),
        RouteNumber::Number(n) => string_of(decimal_chars(*n).as_slice()),
    }
}

/// A non-empty run of ASCII digits.
pub open spec fn is_numeric(s: Seq<char>) -> bool {
    s.len() > 0 && forall|i: int| 0 <= i < s.len() ==> is_digit(#[trigger] s[i])
}

pub open spec fn digit_value(c: char) -> int {
    c as int - '0' as int
}

/// The integer that a run of digits denotes.
pub open spec fn value(s: Seq<char>) -> int
    decreases s.len(),
{
    if s.len() == 0 {
        0
    } else {
        value(s.drop_last()) * 10 + digit_value(s.last())
    }
}

/// Lexicographic order by characters, as `String`'s `Ord` compares.
pub open spec fn lex_le(a: Seq<char>, b: Seq<char>) -> bool
    decreases a.len(),
{
    if a.len() == 0 {
        true
    } else if b.len() == 0 {
        false
    } else if a[0] != b[0] {
        a[0] < b[0]
    } else {
        lex_le(a.drop_first(), b.drop_first())
    }
}

/// The order of route numbers in a listing: numeric ones first, by value (equal values
/// by their text), then the others by their text.
pub open spec fn route_le(a: Seq<char>, b: Seq<char>) -> bool {
    if is_numeric(a) && is_numeric(b) {
        value(a) < value(b) || (value(a) == value(b) && lex_le(a, b))
    } else if is_numeric(a) {
        true
    } else if is_numeric(b) {
        false
    } else {
        lex_le(a, b)
    }
}

pub open spec fn route_order() -> spec_fn(Seq<char>, Seq<char>) -> bool {
    |a: Seq<char>, b: Seq<char>| route_le(a, b)
}

proof fn lemma_lex_reflexive(a: Seq<char>)
    ensures
        lex_le(a, a),
    decreases a.len(),
{
    if a.len() > 0 {
        lemma_lex_reflexive(a.drop_first());
    }
}

proof fn lemma_lex_antisymmetric(a: Seq<char>, b: Seq<char>)
    requires
        lex_le(a, b),
        lex_le(b, a),
    ensures
        a == b,
    decreases a.len(),
{
    if a.len() > 0 && b.len() > 0 {
        lemma_lex_antisymmetric(a.drop_first(), b.drop_first());
        assert(a =~= seq![a[0]] + a.drop_first());
        assert(b =~= seq![b[0]] + b.drop_first());
    }
}

proof fn lemma_lex_transitive(a: Seq<char>, b: Seq<char>, c: Seq<char>)
    requires
        lex_le(a, b),
        lex_le(b, c),
    ensures
        lex_le(a, c),
    decreases a.len(),
{
    if a.len() > 0 && b.len() > 0 && c.len() > 0 && a[0] == b[0] && b[0] == c[0] {
        lemma_lex_transitive(a.drop_first(), b.drop_first(), c.drop_first());
    }
}

proof fn lemma_lex_total(a: Seq<char>, b: Seq<char>)
    ensures
        lex_le(a, b) || lex_le(b, a),
    decreases a.len(),
{
    if a.len() > 0 && b.len() > 0 && a[0] == b[0] {
        lemma_lex_total(a.drop_first(), b.drop_first());
    }
}

/// The listing order is a total order: reflexive, antisymmetric, transitive and total.
/// Numeric route numbers come before all others, and among themselves by value.
pub proof fn lemma_route_order_total()
    ensures
        total_ordering(route_order()),
        forall|a: Seq<char>, b: Seq<char>|
            is_numeric(a) && !is_numeric(b) ==> #[trigger] route_le(a, b) && !#[trigger] route_le(
                b,
                a,
            ),
        forall|a: Seq<char>, b: Seq<char>|
            is_numeric(a) && is_numeric(b) && value(a) < value(b) ==> #[trigger] route_le(a, b)
                && !#[trigger] route_le(b, a),
{
    let f = route_order();
    assert forall|a: Seq<char>| #[trigger] f(a, a) by {
        lemma_lex_reflexive(a);
    }
    assert forall|a: Seq<char>, b: Seq<char>| #[trigger] f(a, b) && #[trigger] f(b, a) implies a
        == b by {
        if !(is_numeric(a) && is_numeric(b) && value(a) != value(b)) {
            lemma_lex_antisymmetric(a, b);
        }
    }
    assert forall|a: Seq<char>, b: Seq<char>, c: Seq<char>| #[trigger] f(a, b) && #[trigger] f(
        b,
        c,
    ) implies f(a, c) by {
        if lex_le(a, b) && lex_le(b, c) {
            lemma_lex_transitive(a, b, c);
        }
    }
    assert forall|a: Seq<char>, b: Seq<char>| #[trigger] f(a, b) || #[trigger] f(b, a) by {
        lemma_lex_total(a, b);
    }
}

fn lex_le_chars(a: &Vec<char>, b: &Vec<char>) -> (r: bool)
    ensures
        r == lex_le(a@, b@),
{
    let mut i: usize = 0;
    assert(a@.subrange(0, a@.len() as int) == a@);
    assert(b@.subrange(0, b@.len() as int) == b@);
    while i < a.len() && i < b.len() && a[i] == b[i]
        invariant
            i <= a@.len(),
            i <= b@.len(),
            lex_le(a@, b@) == lex_le(
                a@.subrange(i as int, a@.len() as int),
                b@.subrange(i as int, b@.len() as int),
            ),
        decreases a@.len() - i,
    {
        assert(a@.subrange(i as int, a@.len() as int).drop_first() == a@.subrange(
            i + 1,
            a@.len() as int,
        ));
        assert(b@.subrange(i as int, b@.len() as int).drop_first() == b@.subrange(
            i + 1,
            b@.len() as int,
        ));
        i += 1;
    }
    if i == a.len() {
        true
    } else if i == b.len() {
        false
    } else {
        assert(a@.subrange(i as int, a@.len() as int)[0] == a@[i as int]);
        assert(b@.subrange(i as int, b@.len() as int)[0] == b@[i as int]);
        a[i] < b[i]
    }
}

fn numeric_chars(a: &Vec<char>) -> (r: bool)
    ensures
        r == is_numeric(a@),
{
    if a.len() == 0 {
        return false;
    }
    let mut i: usize = 0;
    while i < a.len()
        invariant
            i <= a@.len(),
            forall|j: int| 0 <= j < i ==> is_digit(#[trigger] a@[j]),
        decreases a@.len() - i,
    {
        if !('0' <= a[i] && a[i] <= '9') {
            return false;
        }
        i += 1;
    }
    true
}

proof fn lemma_value_zeros(z: Seq<char>, s: Seq<char>)
    requires
        forall|i: int| 0 <= i < z.len() ==> #[trigger] z[i] == '0',
    ensures
        value(z + s) == value(s),
    decreases s.len() + z.len(),
{
    if s.len() > 0 {
        assert((z + s).drop_last() == z + s.drop_last());
        lemma_value_zeros(z, s.drop_last());
    } else if z.len() > 0 {
        assert((z + s).drop_last() == z.drop_last() + s);
        lemma_value_zeros(z.drop_last(), s);
        assert(z + s == z);
    } else {
        assert(z + s == s);
    }
}

/// `a` with zeros in front, to `n` characters.
fn pad_zeros(a: &Vec<char>, n: usize) -> (r: Vec<char>)
    requires
        a@.len() <= n,
    ensures
        r@.len() == n,
        value(r@) == value(a@),
        is_numeric(a@) ==> forall|i: int| 0 <= i < n ==> is_digit(#[trigger] r@[i]),
{
    let k = n - a.len();
    let mut z: Vec<char> = Vec::new();
    while z.len() < k
        invariant
            z@.len() <= k,
            forall|i: int| 0 <= i < z@.len() ==> #[trigger] z@[i] == '0',
        decreases k - z@.len(),
    {
        z.push('0');
    }
    let ghost zs = z@;
    let mut i: usize = 0;
    while i < a.len()
        invariant
            zs.len() == k,
            i <= a@.len(),
            z@ == zs + a@.subrange(0, i as int),
        decreases a@.len() - i,
    {
        z.push(a[i]);
        i += 1;
    }
    proof {
        assert(a@.subrange(0, a@.len() as int) == a@);
        lemma_value_zeros(zs, a@);
        if is_numeric(a@) {
            assert forall|i: int| 0 <= i < n implies is_digit(#[trigger] z@[i]) by {
                if i >= k {
                    assert(z@[i] == a@[i - k]);
                }
            }
        }
    }
    z
}

/// Compares the values of two digit runs: -1, 0 or 1.
fn compare_values(a: &Vec<char>, b: &Vec<char>) -> (r: i8)
    requires
        is_numeric(a@),
        is_numeric(b@),
    ensures
        r == 0 <==> value(a@) == value(b@),
        r < 0 <==> value(a@) < value(b@),
{
    let n = if a.len() < b.len() {
        b.len()
    } else {
        a.len()
    };
    let pa = pad_zeros(a, n);
    let pb = pad_zeros(b, n);
    let mut r: i8 = 0;
    let mut i: usize = 0;
    while i < n
        invariant
            pa@.len() == n,
            pb@.len() == n,
            i <= n,
            forall|j: int| 0 <= j < n ==> is_digit(#[trigger] pa@[j]),
            forall|j: int| 0 <= j < n ==> is_digit(#[trigger] pb@[j]),
            r == 0 <==> value(pa@.subrange(0, i as int)) == value(pb@.subrange(0, i as int)),
            r < 0 <==> value(pa@.subrange(0, i as int)) < value(pb@.subrange(0, i as int)),
            -1 <= r <= 1,
        decreases n - i,
    {
        let ghost va = value(pa@.subrange(0, i as int));
        let ghost vb = value(pb@.subrange(0, i as int));
        assert(pa@.subrange(0, i + 1).drop_last() == pa@.subrange(0, i as int));
        assert(pb@.subrange(0, i + 1).drop_last() == pb@.subrange(0, i as int));
        assert(is_digit(pa@[i as int]) && is_digit(pb@[i as int]));
        if r == 0 {
            if pa[i] < pb[i] {
                r = -1;
            } else if pa[i] > pb[i] {
                r = 1;
            }
        }
        i += 1;
    }
    assert(pa@.subrange(0, n as int) == pa@);
    assert(pb@.subrange(0, n as int) == pb@);
    r
}

fn route_le_chars(a: &Vec<char>, b: &Vec<char>) -> (r: bool)
    ensures
        r == route_le(a@, b@),
{
    let na = numeric_chars(a);
    let nb = numeric_chars(b);
    if na && nb {
        let c = compare_values(a, b);
        c < 0 || (c == 0 && lex_le_chars(a, b))
    } else if na {
        true
    } else if nb {
        false
    } else {
        lex_le_chars(a, b)
    }
}

/// The route numbers in listing order: the same numbers, sorted by `route_le`.
pub fn sorted_routes(routes: &Vec<String>) -> (r: Vec<String>)
    ensures
        r@.map_values(|s: String| s@) == routes@.map_values(|s: String| s@).sort_by(
            route_order(),
        ),
        r@.map_values(|s: String| s@).to_multiset() == routes@.map_values(
            |s: String| s@,
        ).to_multiset(),
        sorted_by(r@.map_values(|s: String| s@), route_order()),
{
    proof {
        lemma_route_order_total();
    }
    let mut out: Vec<String> = Vec::new();
    let mut i: usize = 0;
    assert(out@.map_values(|s: String| s@) =~= routes@.subrange(0, 0).map_values(
        |s: String| s@,
    ));
    while i < routes.len()
        invariant
            i <= routes@.len(),
            total_ordering(route_order()),
            out@.map_values(|s: String| s@).to_multiset() == routes@.subrange(
                0,
                i as int,
            ).map_values(|s: String| s@).to_multiset(),
            sorted_by(out@.map_values(|s: String| s@), route_order()),
        decreases routes@.len() - i,
    {
        let x = chars_of(routes[i].as_str());
        let ghost before = out@.map_values(|s: String| s@);
        let mut p: usize = 0;
        while p < out.len() && route_le_chars(&chars_of(out[p].as_str()), &x)
            invariant
                p <= out@.len(),
                before == out@.map_values(|s: String| s@),
                forall|j: int| 0 <= j < p ==> route_le(#[trigger] before[j], x@),
            decreases out@.len() - p,
        {
            p += 1;
        }
        proof {
            let f = route_order();
            if p < out@.len() {
                assert(!f(before[p as int], x@));
                assert(f(x@, before[p as int]));
                assert forall|j: int| p <= j < before.len() implies route_le(
                    x@,
                    #[trigger] before[j],
                ) by {
                    if j > p {
                        assert(f(before[p as int], before[j]));
                    }
                }
            }
        }
        out.insert(p, routes[i].clone());
        proof {
            let after = out@.map_values(|s: String| s@);
            assert(after =~= before.insert(p as int, x@));
            vstd::seq_lib::to_multiset_insert(before, p as int, x@);
            let prefix = routes@.subrange(0, i + 1).map_values(|s: String| s@);
            assert(prefix =~= routes@.subrange(0, i as int).map_values(|s: String| s@).push(x@));
            vstd::seq_lib::to_multiset_build(
                routes@.subrange(0, i as int).map_values(|s: String| s@),
                x@,
            );
            let f = route_order();
            assert forall|a: int, b: int| 0 <= a < b < after.len() implies #[trigger] f(
                after[a],
                after[b],
            ) by {
                if b < p {
                } else if b == p {
                } else if a < p {
                    assert(f(before[a], x@));
                    assert(f(x@, before[b - 1]));
                } else if a == p {
                } else {
                }
            }
        }
        i += 1;
    }
    assert(routes@.subrange(0, routes@.len() as int) == routes@);
    proof {
        let input = routes@.map_values(|s: String| s@);
        input.lemma_sort_by_ensures(route_order());
        vstd::seq_lib::lemma_sorted_unique(
            out@.map_values(|s: String| s@),
            input.sort_by(route_order()),
            route_order(),
        );
    }
    out
}

} // verus!
