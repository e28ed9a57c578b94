use vstd::prelude::*;
use vstd::string::StringExecFns;

use crate::fizz_buzz::{decimal_string, spec_decimal};

verus! {

/// Drop the first `n` elements.
pub fn skip_front<T: Copy>(v: &Vec<T>, n: usize) -> (r: Vec<T>)
    requires
        n <= v@.len(),
    ensures
        r@ == v@.skip(n as int),
{
    let mut r: Vec<T> = Vec::new();
    let mut i: usize = n;
    while i < v.len()
        invariant
            n <= i <= v@.len(),
            r@ =~= v@.subrange(n as int, i as int),
        decreases v@.len() - i,
    {
        r.push(v[i]);
        i = i + 1;
    }
    proof {
        assert(r@ =~= v@.skip(n as int));
    }
    r
}

/// Keep only the first `n` elements.
pub fn take_front<T: Copy>(v: &Vec<T>, n: usize) -> (r: Vec<T>)
    requires
        n <= v@.len(),
    ensures
        r@ == v@.take(n as int),
{
    let mut r: Vec<T> = Vec::new();
    let mut i: usize = 0;
    while i < n
        invariant
            i <= n <= v@.len(),
            r@ =~= v@.take(i as int),
        decreases n - i,
    {
        r.push(v[i]);
        i = i + 1;
        proof {
            assert(r@ =~= v@.take(i as int));
        }
    }
    r
}

/// The two runs joined, left before right.
pub fn join<T: Copy>(a: &Vec<T>, b: &Vec<T>) -> (r: Vec<T>)
    ensures
        r@ == a@ + b@,
{
    let mut r: Vec<T> = Vec::new();
    let mut i: usize = 0;
    while i < a.len()
        invariant
            i <= a@.len(),
            r@ =~= a@.take(i as int),
        decreases a@.len() - i,
    {
        r.push(a[i]);
        i = i + 1;
        proof {
            assert(r@ =~= a@.take(i as int));
        }
    }
    let mut j: usize = 0;
    while j < b.len()
        invariant
            j <= b@.len(),
            r@ =~= a@ + b@.take(j as int),
        decreases b@.len() - j,
    {
        r.push(b[j]);
        j = j + 1;
        proof {
            assert(r@ =~= a@ + b@.take(j as int));
        }
    }
    proof {
        assert(r@ =~= a@ + b@);
    }
    r
}

/// The sum of the run, as an unbounded integer.
pub open spec fn spec_sum(s: Seq<i64>) -> int
    decreases s.len(),
{
    if s.len() == 0 {
        0
    } else {
        spec_sum(s.drop_last()) + s.last()
    }
}

/// Fold the run with addition, starting from `init` — the run folded
/// left to right, every intermediate sum within bounds.
pub fn fold_add(v: &Vec<i64>, init: i64) -> (r: i64)
    requires
        forall|i: int|
            0 <= i <= v@.len() ==> i64::MIN <= init + spec_sum(#[trigger] v@.take(i)) <= i64::MAX,
    ensures
        r == init + spec_sum(v@),
{
    let mut acc: i64 = init;
    let mut i: usize = 0;
    proof {
        assert(v@.take(0) =~= Seq::<i64>::empty());
    }
    while i < v.len()
        invariant
            i <= v@.len(),
            acc == init + spec_sum(v@.take(i as int)),
            forall|j: int|
                0 <= j <= v@.len() ==> i64::MIN <= init + spec_sum(#[trigger] v@.take(j))
                    <= i64::MAX,
        decreases v@.len() - i,
    {
        proof {
            assert(v@.take(i + 1).drop_last() =~= v@.take(i as int));
            assert(v@.take(i + 1).last() == v@[i as int]);
        }
        acc = acc + v[i];
        i = i + 1;
    }
    proof {
        assert(v@.take(v@.len() as int) =~= v@);
    }
    acc
}

/// Fold the run with addition, seeding the fold with its first element.
pub fn fold_add_first(v: &Vec<i64>) -> (r: i64)
    requires
        v@.len() > 0,
        forall|i: int|
            0 <= i <= v@.len() ==> i64::MIN <= spec_sum(#[trigger] v@.take(i)) <= i64::MAX,
    ensures
        r == spec_sum(v@),
{
    let first = v[0];
    let rest = skip_front(v, 1);
    proof {
        assert(v@.take(1) =~= seq![v@[0]]);
        assert(seq![v@[0]].drop_last() =~= Seq::<i64>::empty());
        assert(spec_sum(Seq::<i64>::empty()) == 0);
        assert(spec_sum(v@.take(1)) == first);
        assert forall|i: int|
            0 <= i <= rest@.len() implies i64::MIN <= first + spec_sum(#[trigger] rest@.take(i))
            <= i64::MAX by {
            lemma_sum_split(v@.take(1 + i), 1);
            assert(v@.take(1 + i).take(1) =~= v@.take(1));
            assert(v@.take(1 + i).skip(1) =~= rest@.take(i));
        }
    }
    let folded = fold_add(&rest, first);
    proof {
        lemma_sum_split(v@, 1);
        assert(spec_sum(v@.take(1)) == first);
        assert(v@.skip(1) =~= rest@);
    }
    folded
}

/// Splitting a run anywhere splits its sum.
proof fn lemma_sum_split(s: Seq<i64>, i: int)
    requires
        0 <= i <= s.len(),
    ensures
        spec_sum(s) == spec_sum(s.take(i)) + spec_sum(s.skip(i)),
    decreases s.len() - i,
{
    if i == s.len() {
        assert(s.take(i) =~= s);
        assert(s.skip(i) =~= Seq::<i64>::empty());
    } else {
        lemma_sum_split(s, i + 1);
        assert(s.take(i + 1).drop_last() =~= s.take(i));
        assert(s.take(i + 1).last() == s[i]);
        lemma_sum_skip_one(s, i);
    }
}

/// Peeling the first element off a tail run moves one summand.
proof fn lemma_sum_skip_one(s: Seq<i64>, i: int)
    requires
        0 <= i < s.len(),
    ensures
        spec_sum(s.skip(i)) == s[i] + spec_sum(s.skip(i + 1)),
    decreases s.len() - i,
{
    if i == s.len() - 1 {
        assert(s.skip(i) =~= seq![s[i]]);
        assert(s.skip(i + 1) =~= Seq::<i64>::empty());
        assert(s.skip(i).drop_last() =~= Seq::<i64>::empty());
    } else {
        assert(s.skip(i).drop_last() =~= s.drop_last().skip(i));
        assert(s.skip(i + 1).drop_last() =~= s.drop_last().skip(i + 1));
        lemma_sum_skip_one(s.drop_last(), i);
        assert(s.skip(i).last() == s.last());
        assert(s.skip(i + 1).last() == s.last());
    }
}

/// Every suffix of the run, longest first: what a fold over shrinking
/// tails visits.
pub fn suffixes<T: Copy>(v: &Vec<T>) -> (r: Vec<Vec<T>>)
    ensures
        r@.len() == v@.len(),
        forall|i: int| 0 <= i < r@.len() ==> (#[trigger] r@[i])@ == v@.skip(i),
{
    let mut r: Vec<Vec<T>> = Vec::new();
    let mut i: usize = 0;
    while i < v.len()
        invariant
            i <= v@.len(),
            r@.len() == i,
            forall|j: int| 0 <= j < i ==> (#[trigger] r@[j])@ == v@.skip(j),
        decreases v@.len() - i,
    {
        let s = skip_front(v, i);
        r.push(s);
        i = i + 1;
    }
    r
}

/// Every nonempty prefix of the run, longest first: what a fold over
/// shrinking heads visits.
pub fn prefixes<T: Copy>(v: &Vec<T>) -> (r: Vec<Vec<T>>)
    ensures
        r@.len() == v@.len(),
        forall|i: int| 0 <= i < r@.len() ==> (#[trigger] r@[i])@ == v@.take(v@.len() - i),
{
    let mut r: Vec<Vec<T>> = Vec::new();
    let mut i: usize = 0;
    while i < v.len()
        invariant
            i <= v@.len(),
            r@.len() == i,
            forall|j: int| 0 <= j < i ==> (#[trigger] r@[j])@ == v@.take(v@.len() - j),
        decreases v@.len() - i,
    {
        let p = take_front(v, v.len() - i);
        r.push(p);
        i = i + 1;
    }
    r
}

/// The decimal spellings of the run's numbers, joined front to back.
pub open spec fn spec_concat_decimals(s: Seq<usize>) -> Seq<char>
    decreases s.len(),
{
    if s.len() == 0 {
        Seq::empty()
    } else {
        spec_concat_decimals(s.drop_last()) + spec_decimal(s.last() as nat)
    }
}

/// The decimal spellings of the run's numbers, joined back to front.
pub open spec fn spec_concat_decimals_rev(s: Seq<usize>) -> Seq<char>
    decreases s.len(),
{
    if s.len() == 0 {
        Seq::empty()
    } else {
        spec_decimal(s.last() as nat) + spec_concat_decimals_rev(s.drop_last())
    }
}

/// Spell each number in order and join the spellings: what applying a
/// print step to each element front to back builds up.
pub fn concat_decimals(v: &Vec<usize>) -> (r: String)
    ensures
        r@ == spec_concat_decimals(v@),
{
    let mut r = String::new();
    let mut i: usize = 0;
    while i < v.len()
        invariant
            i <= v@.len(),
            r@ == spec_concat_decimals(v@.take(i as int)),
        decreases v@.len() - i,
    {
        let piece = decimal_string(v[i]);
        r.append(piece.as_str());
        i = i + 1;
        proof {
            assert(v@.take(i as int).drop_last() =~= v@.take(i as int - 1));
            assert(v@.take(i as int).last() == v@[i as int - 1]);
        }
    }
    proof {
        assert(v@.take(v@.len() as int) =~= v@);
    }
    r
}

/// Spell each number and join the spellings back to front: the reversed
/// traversal.
pub fn concat_decimals_rev(v: &Vec<usize>) -> (r: String)
    ensures
        r@ == spec_concat_decimals_rev(v@),
{
    let mut r = String::new();
    let mut i: usize = v.len();
    while i > 0
        invariant
            i <= v@.len(),
            r@ == spec_concat_decimals_rev(v@.skip(i as int)),
        decreases i,
    {
        i = i - 1;
        let piece = decimal_string(v[i]);
        r.append(piece.as_str());
        proof {
            lemma_concat_rev_step(v@, i as int);
        }
    }
    proof {
        assert(v@.skip(0) =~= v@);
    }
    r
}

/// Peeling the first element off a tail run moves its spelling to the
/// front of the joined spellings.
proof fn lemma_concat_rev_step(s: Seq<usize>, i: int)
    requires
        0 <= i < s.len(),
    ensures
        spec_concat_decimals_rev(s.skip(i)) == spec_concat_decimals_rev(s.skip(i + 1))
            + spec_decimal(s[i] as nat),
    decreases s.len() - i,
{
    if i == s.len() - 1 {
        assert(s.skip(i) =~= seq![s[i]]);
        assert(s.skip(i).drop_last() =~= Seq::<usize>::empty());
        assert(s.skip(i + 1) =~= Seq::<usize>::empty());
    } else {
        assert(s.skip(i).drop_last() =~= s.drop_last().skip(i));
        assert(s.skip(i + 1).drop_last() =~= s.drop_last().skip(i + 1));
        lemma_concat_rev_step(s.drop_last(), i);
        assert(s.skip(i).last() == s.last());
        assert(s.skip(i + 1).last() == s.last());
        assert(spec_concat_decimals_rev(s.skip(i)) == spec_decimal(s.last() as nat)
            + spec_concat_decimals_rev(s.drop_last().skip(i)));
    }
}

} // verus!
