use vstd::prelude::*;
use vstd::string::*;
use vstd::set_lib::lemma_len_subset;
use crate::fol::ast::Var;
use crate::fol::free::VarSet;

verus! {

/// The character of a decimal digit.
pub open spec fn digit_char(d: nat) -> char {
    if d == 0 {
        '0'
    } else if d == 1 {
        '1'
    } else if d == 2 {
        '2'
    } else if d == 3 {
        '3'
    } else if d == 4 {
        '4'
    } else if d == 5 {
        '5'
    } else if d == 6 {
        '6'
    } else if d == 7 {
        '7'
    } else if d == 8 {
        '8'
    } else {
        '9'
    }
}

/// The decimal numeral of a natural number, without leading zeros.
pub open spec fn decimal(n: nat) -> Seq<char>
    decreases n,
{
    if n < 10 {
        seq![digit_char(n)]
    } else {
        decimal(n / 10).push(digit_char(n % 10))
    }
}

/// The `i`-th candidate for a fresh name: the base followed by the numeral of `i`.
pub open spec fn indexed_name(base: Seq<char>, i: nat) -> Seq<char> {
    base + decimal(i)
}

/// `i` is the first index from `start` on whose candidate is not taken.
pub open spec fn is_first_fresh_from(
    base: Seq<char>,
    taken: Set<Seq<char>>,
    start: nat,
    i: nat,
) -> bool {
    &&& start <= i
    &&& !taken.contains(indexed_name(base, i))
    &&& forall|j: nat| start <= j < i ==> taken.contains(#[trigger] indexed_name(base, j))
}

/// The first index from `start` on whose candidate is not taken.
pub open spec fn first_fresh_from(base: Seq<char>, taken: Set<Seq<char>>, start: nat) -> nat {
    choose|i: nat| is_first_fresh_from(base, taken, start, i)
}

/// The fresh name for `base` against `taken`: the first of `base0`, `base1`,
/// `base2`, ... that `taken` does not hold.
pub open spec fn fresh_name_of(base: Seq<char>, taken: Set<Seq<char>>) -> Seq<char> {
    indexed_name(base, first_fresh_from(base, taken, 0))
}

/// How many of the first `k` candidates are not taken.
pub open spec fn free_below(base: Seq<char>, taken: Set<Seq<char>>, k: nat) -> nat
    decreases k,
{
    if k == 0 {
        0
    } else if taken.contains(indexed_name(base, (k - 1) as nat)) {
        free_below(base, taken, (k - 1) as nat)
    } else {
        free_below(base, taken, (k - 1) as nat) + 1
    }
}

/// Distinct numbers have distinct numerals.
pub proof fn lemma_decimal_injective(a: nat, b: nat)
    requires
        decimal(a) == decimal(b),
    ensures
        a == b,
    decreases a,
{
    if a < 10 {
        if b >= 10 {
            assert(decimal(b).len() == decimal(b / 10).len() + 1);
            lemma_decimal_nonempty(b / 10);
        } else {
            assert(decimal(a)[0] == digit_char(a));
            assert(decimal(b)[0] == digit_char(b));
        }
    } else {
        if b < 10 {
            lemma_decimal_nonempty(a / 10);
        } else {
            let da = decimal(a / 10);
            let db = decimal(b / 10);
            assert(decimal(a).last() == digit_char(a % 10));
            assert(decimal(b).last() == digit_char(b % 10));
            assert(decimal(a).drop_last() =~= da);
            assert(decimal(b).drop_last() =~= db);
            lemma_decimal_injective(a / 10, b / 10);
            assert(digit_char(a % 10) == digit_char(b % 10));
            assert(a % 10 == b % 10);
            assert(a == 10 * (a / 10) + a % 10);
            assert(b == 10 * (b / 10) + b % 10);
        }
    }
}

/// A numeral has at least one digit.
pub proof fn lemma_decimal_nonempty(n: nat)
    ensures
        decimal(n).len() >= 1,
    decreases n,
{
    if n >= 10 {
        lemma_decimal_nonempty(n / 10);
    }
}

/// Distinct indices give distinct candidates.
pub proof fn lemma_indexed_name_injective(base: Seq<char>, a: nat, b: nat)
    requires
        indexed_name(base, a) == indexed_name(base, b),
    ensures
        a == b,
{
    let na = indexed_name(base, a);
    let nb = indexed_name(base, b);
    assert(na.subrange(base.len() as int, na.len() as int) =~= decimal(a));
    assert(nb.subrange(base.len() as int, nb.len() as int) =~= decimal(b));
    lemma_decimal_injective(a, b);
}

/// The set of the first `k` candidates.
pub open spec fn candidates(base: Seq<char>, k: nat) -> Set<Seq<char>>
    decreases k,
{
    if k == 0 {
        Set::empty()
    } else {
        candidates(base, (k - 1) as nat).insert(indexed_name(base, (k - 1) as nat))
    }
}

/// The first `k` candidates are `k` different names.
pub proof fn lemma_candidates(base: Seq<char>, k: nat)
    ensures
        candidates(base, k).finite(),
        candidates(base, k).len() == k,
        forall|s: Seq<char>|
            candidates(base, k).contains(s) <==> exists|j: nat| j < k && s == indexed_name(base, j),
    decreases k,
{
    if k > 0 {
        let p = (k - 1) as nat;
        lemma_candidates(base, p);
        let n = indexed_name(base, p);
        if candidates(base, p).contains(n) {
            let j = choose|j: nat| j < p && n == indexed_name(base, j);
            lemma_indexed_name_injective(base, j, p);
        }
        assert forall|s: Seq<char>| candidates(base, k).contains(s) implies exists|j: nat|
            j < k && s == indexed_name(base, j) by {
            if s == n {
                assert(p < k && s == indexed_name(base, p));
            } else {
                let j = choose|j: nat| j < p && s == indexed_name(base, j);
                assert(j < k && s == indexed_name(base, j));
            }
        }
    }
}

/// Of the first `k` candidates, those that a finite set holds are no more
/// than the set has elements.
pub proof fn lemma_free_below(base: Seq<char>, taken: Set<Seq<char>>, k: nat)
    requires
        taken.finite(),
    ensures
        candidates(base, k).intersect(taken).finite(),
        free_below(base, taken, k) + candidates(base, k).intersect(taken).len() == k,
        k <= free_below(base, taken, k) + taken.len(),
    decreases k,
{
    lemma_candidates(base, k);
    let held = candidates(base, k).intersect(taken);
    assert(held.subset_of(taken));
    lemma_len_subset(held, taken);
    if k > 0 {
        let p = (k - 1) as nat;
        let n = indexed_name(base, p);
        lemma_free_below(base, taken, p);
        lemma_candidates(base, p);
        let before = candidates(base, p).intersect(taken);
        if candidates(base, p).contains(n) {
            let j = choose|j: nat| j < p && n == indexed_name(base, j);
            lemma_indexed_name_injective(base, j, p);
        }
        if taken.contains(n) {
            assert(held =~= before.insert(n));
        } else {
            assert(held =~= before);
        }
    } else {
        assert(held =~= Set::<Seq<char>>::empty());
    }
}

/// Over a run of taken candidates the number of free ones stays.
pub proof fn lemma_free_below_run(base: Seq<char>, taken: Set<Seq<char>>, a: nat, b: nat)
    requires
        a <= b,
        forall|j: nat| a <= j < b ==> taken.contains(#[trigger] indexed_name(base, j)),
    ensures
        free_below(base, taken, b) == free_below(base, taken, a),
    decreases b - a,
{
    if a < b {
        assert(taken.contains(indexed_name(base, (b - 1) as nat)));
        lemma_free_below_run(base, taken, a, (b - 1) as nat);
    }
}

/// Scans upwards from `from` for the first fresh index.
proof fn lemma_scan(base: Seq<char>, taken: Set<Seq<char>>, start: nat, from: nat) -> (i: nat)
    requires
        taken.finite(),
        start <= from,
        forall|j: nat| start <= j < from ==> taken.contains(#[trigger] indexed_name(base, j)),
    ensures
        is_first_fresh_from(base, taken, start, i),
    decreases free_below(base, taken, start) + taken.len() + 1 - from,
{
    lemma_free_below(base, taken, from);
    lemma_free_below_run(base, taken, start, from);
    if !taken.contains(indexed_name(base, from)) {
        from
    } else {
        lemma_free_below(base, taken, from + 1);
        lemma_free_below_run(base, taken, start, from + 1);
        lemma_scan(base, taken, start, from + 1)
    }
}

/// Against a finite set a first fresh index exists from any start on; its
/// candidate is not taken.
pub proof fn lemma_first_fresh_from(base: Seq<char>, taken: Set<Seq<char>>, start: nat)
    requires
        taken.finite(),
    ensures
        is_first_fresh_from(base, taken, start, first_fresh_from(base, taken, start)),
        !taken.contains(indexed_name(base, first_fresh_from(base, taken, start))),
{
    let i = lemma_scan(base, taken, start, start);
    assert(is_first_fresh_from(base, taken, start, i));
}

/// Against a finite set the fresh name is not taken.
pub proof fn lemma_fresh_name_of(base: Seq<char>, taken: Set<Seq<char>>)
    requires
        taken.finite(),
    ensures
        !taken.contains(fresh_name_of(base, taken)),
{
    lemma_first_fresh_from(base, taken, 0);
}

/// Two first fresh indices from the same start are the same.
pub proof fn lemma_first_fresh_unique(
    base: Seq<char>,
    taken: Set<Seq<char>>,
    start: nat,
    a: nat,
    b: nat,
)
    requires
        is_first_fresh_from(base, taken, start, a),
        is_first_fresh_from(base, taken, start, b),
    ensures
        a == b,
{
    if a < b {
        assert(taken.contains(indexed_name(base, a)));
    } else if b < a {
        assert(taken.contains(indexed_name(base, b)));
    }
}

/// The one-character text of a decimal digit.
pub fn digit_str(d: usize) -> (s: &'static str)
    requires
        d < 10,
    ensures
        s@ == seq![digit_char(d as nat)],
{
    proof {
        reveal_strlit("0");
        reveal_strlit("1");
        reveal_strlit("2");
        reveal_strlit("3");
        reveal_strlit("4");
        reveal_strlit("5");
        reveal_strlit("6");
        reveal_strlit("7");
        reveal_strlit("8");
        reveal_strlit("9");
    }
    let s = if d == 0 {
        "0"
    } else if d == 1 {
        "1"
    } else if d == 2 {
        "2"
    } else if d == 3 {
        "3"
    } else if d == 4 {
        "4"
    } else if d == 5 {
        "5"
    } else if d == 6 {
        "6"
    } else if d == 7 {
        "7"
    } else if d == 8 {
        "8"
    } else {
        "9"
    };
    assert(s@ =~= seq![digit_char(d as nat)]);
    s
}

/// Appends the decimal numeral of `n` to `out`.
pub fn push_decimal(out: &mut String, n: u128)
    ensures
        final(out)@ == old(out)@ + decimal(n as nat),
    decreases n,
{
    if n < 10 {
        out.append(digit_str(n as usize));
    } else {
        push_decimal(out, n / 10);
        out.append(digit_str((n % 10) as usize));
        assert(out@ =~= old(out)@ + decimal(n as nat));
    }
}

/// The first of the candidates `base` and a number, from the number
/// `start` on, that `taken` does not hold; with its number.
pub fn next_fresh(base: &str, taken: &VarSet, start: u128) -> (r: (String, u128))
    requires
        free_below(base@, taken@, start as nat) <= usize::MAX,
    ensures
        r.1 == first_fresh_from(base@, taken@, start as nat),
        is_first_fresh_from(base@, taken@, start as nat, r.1 as nat),
        r.0@ == indexed_name(base@, r.1 as nat),
        !taken@.contains(r.0@),
        r.1 < u128::MAX,
        free_below(base@, taken@, (r.1 + 1) as nat) == free_below(base@, taken@, start as nat) + 1,
{
    let n = taken.len();
    let mut i: u128 = start;
    loop
        invariant
            start <= i,
            n == taken.vars.len(),
            taken@.finite(),
            taken@.len() <= n,
            free_below(base@, taken@, start as nat) <= usize::MAX,
            forall|j: nat| start <= j < i ==> taken@.contains(#[trigger] indexed_name(base@, j)),
        decreases free_below(base@, taken@, start as nat) + n + 1 - i,
    {
        proof {
            lemma_free_below(base@, taken@, i as nat);
            lemma_free_below_run(base@, taken@, start as nat, i as nat);
        }
        let mut name = String::from_str(base);
        push_decimal(&mut name, i);
        let cand = Var::from_string(name);
        if !taken.contains(&cand) {
            proof {
                assert(is_first_fresh_from(base@, taken@, start as nat, i as nat));
                lemma_first_fresh_unique(
                    base@,
                    taken@,
                    start as nat,
                    i as nat,
                    first_fresh_from(base@, taken@, start as nat),
                );
            }
            return (cand.name, i);
        }
        i += 1;
    }
}

/// A name that `taken` does not hold: the first free one of `base0`,
/// `base1`, `base2`, ...
pub fn fresh_name(base: &Var, taken: &VarSet) -> (v: Var)
    ensures
        v@ == fresh_name_of(base@, taken@),
        !taken@.contains(v@),
{
    let r = next_fresh(base.name.as_str(), taken, 0);
    Var::from_string(r.0)
}

} // verus!
