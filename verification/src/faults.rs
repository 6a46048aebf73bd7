//! Composition of validation outcomes: the first failing check wins.
use vstd::prelude::*;

verus! {

/// `a` when it is a fault, else `b`.
pub open spec fn then<E>(a: Option<E>, b: Option<E>) -> Option<E> {
    if a is Some {
        a
    } else {
        b
    }
}

/// `None` when `ok` holds, else the fault `e`.
pub open spec fn check<E>(ok: bool, e: E) -> Option<E> {
    if ok {
        None
    } else {
        Some(e)
    }
}

/// The fault of the first element of `s` (by position) that `f` finds
/// faulty, if any.
pub open spec fn first_fault<T, E>(s: Seq<T>, f: spec_fn(int, T) -> Option<E>) -> Option<E>
    decreases s.len(),
{
    if s.len() == 0 {
        None
    } else {
        then(first_fault(s.drop_last(), f), f(s.len() - 1, s.last()))
    }
}

/// Checking one more element extends the check of a prefix.
pub proof fn lemma_first_fault_step<T, E>(s: Seq<T>, f: spec_fn(int, T) -> Option<E>, i: int)
    requires
        0 <= i < s.len(),
    ensures
        first_fault(s.take(i + 1), f) == then(first_fault(s.take(i), f), f(i, s[i])),
{
    assert(s.take(i + 1).drop_last() =~= s.take(i));
}

/// The whole sequence is its own prefix.
pub proof fn lemma_take_all<T>(s: Seq<T>)
    ensures
        s.take(s.len() as int) == s,
{
    assert(s.take(s.len() as int) =~= s);
}

/// No element of a fault-free sequence is faulty.
pub proof fn lemma_first_fault_none<T, E>(s: Seq<T>, f: spec_fn(int, T) -> Option<E>, i: int)
    requires
        first_fault(s, f) is None,
        0 <= i < s.len(),
    ensures
        f(i, s[i]) is None,
    decreases s.len(),
{
    if i < s.len() - 1 {
        assert(s.drop_last()[i] == s[i]);
        lemma_first_fault_none(s.drop_last(), f, i);
    }
}

/// Once a prefix has a fault, the whole sequence has the same fault.
pub proof fn lemma_first_fault_prefix<T, E>(s: Seq<T>, f: spec_fn(int, T) -> Option<E>, n: int)
    requires
        0 <= n <= s.len(),
        first_fault(s.take(n), f) is Some,
    ensures
        first_fault(s, f) == first_fault(s.take(n), f),
    decreases s.len(),
{
    if n == s.len() {
        lemma_take_all(s);
    } else {
        assert(s.drop_last().take(n) =~= s.take(n));
        lemma_first_fault_prefix(s.drop_last(), f, n);
    }
}

} // verus!
