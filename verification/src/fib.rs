use vstd::prelude::*;

verus! {

/// The Fibonacci sequence, with the convention that the zeroth element is 0
/// and the first is 1.
pub open spec fn fib(n: nat) -> nat
    decreases n,
{
    if n == 0 {
        0
    } else if n == 1 {
        1
    } else {
        fib((n - 1) as nat) + fib((n - 2) as nat)
    }
}

/// Past the two base values, every element of the sequence is the sum of the
/// two before it.
pub proof fn lemma_fib_recurrence(n: nat)
    requires
        n >= 2,
    ensures
        fib(n) == fib((n - 1) as nat) + fib((n - 2) as nat),
{
}

/// The sequence never decreases: a later index never holds a smaller value.
pub proof fn lemma_fib_monotone(i: nat, j: nat)
    requires
        i <= j,
    ensures
        fib(i) <= fib(j),
    decreases j,
{
    if i < j && j >= 2 {
        lemma_fib_monotone(i, (j - 1) as nat);
    }
}

/// The n-th Fibonacci number, by the textbook recursion.
pub fn fibonacci(n: u32) -> (r: u32)
    requires
        fib(n as nat) <= u32::MAX,
    ensures
        r == fib(n as nat),
    decreases n,
{
    match n {
        0 => 0,
        1 => 1,
        _ => {
            proof {
                lemma_fib_monotone((n - 1) as nat, n as nat);
                lemma_fib_monotone((n - 2) as nat, n as nat);
            }
            fibonacci(n - 1) + fibonacci(n - 2)
        },
    }
}

/// The n-th Fibonacci number for any index at all: answers `None` exactly
/// when the value does not fit in a `u32`.
pub fn fibonacci_checked(n: u32) -> (r: Option<u32>)
    ensures
        match r {
            Some(v) => v == fib(n as nat),
            None => fib(n as nat) > u32::MAX,
        },
{
    if n == 0 {
        return Some(0);
    }
    let mut prev: u32 = 0;
    let mut cur: u32 = 1;
    let mut i: u32 = 1;
    while i < n
        invariant
            1 <= i <= n,
            prev == fib((i - 1) as nat),
            cur == fib(i as nat),
        decreases n - i,
    {
        let next = match cur.checked_add(prev) {
            Some(s) => s,
            None => {
                proof {
                    lemma_fib_monotone((i + 1) as nat, n as nat);
                }
                return None;
            },
        };
        prev = cur;
        cur = next;
        i = i + 1;
    }
    Some(cur)
}

} // verus!
