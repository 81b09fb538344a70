//! Small numeric routines: parity, the guessing-game judge and its play-out,
//! Fizz/Buzz labelling, and array sums and maxima.

use vstd::prelude::*;

verus! {

/// Whether `n` is even.
pub fn is_even(n: i32) -> (r: bool)
    ensures
        r == (n as int % 2 == 0),
{
    n % 2 == 0
}

/// Compares a guess against the secret: 0 when equal, 1 when the guess is
/// too high, -1 when it is too low.
pub fn check_guess(guess: i32, secret: i32) -> (r: i32)
    ensures
        r == if guess == secret {
            0int
        } else if guess > secret {
            1int
        } else {
            -1int
        },
{
    if guess == secret {
        0
    } else if guess > secret {
        1
    } else {
        -1
    }
}

/// Plays the guessing game from `start`: each wrong guess moves one step
/// toward the secret, so finding it takes exactly the distance plus the
/// final correct guess.
pub fn guess_attempts(start: i32, secret: i32) -> (attempts: u64)
    ensures
        attempts == 1 + if start >= secret {
            start - secret
        } else {
            secret - start
        },
{
    let mut guess: i32 = start;
    let mut attempts: u64 = 0;
    while guess != secret
        invariant
            if start >= secret {
                secret <= guess <= start && attempts == start - guess
            } else {
                start <= guess <= secret && attempts == guess - start
            },
        decreases
                if guess >= secret {
                    guess - secret
                } else {
                    secret - guess
                },
    {
        let r = check_guess(guess, secret);
        if r == 1 {
            guess = guess - 1;
        } else {
            guess = guess + 1;
        }
        attempts = attempts + 1;
    }
    attempts + 1
}

/// The classic labelling: multiples of 15 are FizzBuzz, of 3 Fizz, of 5
/// Buzz; anything else is labelled by its parity.
pub open spec fn spec_fizzbuzz(n: int) -> Seq<char> {
    if n % 15 == 0 {
        "FizzBuzz"@
    } else if n % 3 == 0 {
        "Fizz"@
    } else if n % 5 == 0 {
        "Buzz"@
    } else if n % 2 == 0 {
        "Even"@
    } else {
        "Odd"@
    }
}

/// Executable counterpart of `spec_fizzbuzz`.
pub fn fizzbuzz_label(n: i32) -> (r: &'static str)
    ensures
        r@ == spec_fizzbuzz(n as int),
{
    if n % 15 == 0 {
        "FizzBuzz"
    } else if n % 3 == 0 {
        "Fizz"
    } else if n % 5 == 0 {
        "Buzz"
    } else if n % 2 == 0 {
        "Even"
    } else {
        "Odd"
    }
}

/// The sum of a sequence of numbers.
pub open spec fn spec_sum(s: Seq<i32>) -> int
    decreases s.len(),
{
    if s.len() == 0 {
        0
    } else {
        spec_sum(s.drop_last()) + s.last()
    }
}

/// Sums a list of numbers without overflowing: the result is wide enough for
/// any list a 32-bit machine can index.
pub fn sum_of(v: &Vec<i32>) -> (r: i64)
    requires
        v@.len() <= u32::MAX,
    ensures
        r == spec_sum(v@),
{
    let mut total: i64 = 0;
    let mut i: usize = 0;
    while i < v.len()
        invariant
            i <= v@.len(),
            v@.len() <= u32::MAX,
            total == spec_sum(v@.take(i as int)),
            -(i as int) * (i32::MAX as int + 1) <= total <= i as int * i32::MAX as int,
        decreases v@.len() - i,
    {
        proof {
            assert(v@.take(i + 1).drop_last() =~= v@.take(i as int));
            assert(v@.take(i + 1).last() == v@[i as int]);
            let b = i32::MAX as int + 1;
            assert((i + 1) as int * b <= u32::MAX as int * b && -((i + 1) as int * b) >= -(
            u32::MAX as int * b) && u32::MAX as int * b < i64::MAX) by (nonlinear_arith)
                requires
                    0 <= i as int + 1 <= u32::MAX as int,
                    b == i32::MAX as int + 1;
            assert(-(i as int) * b - b == -((i + 1) as int) * b) by (nonlinear_arith);
            assert(i as int * (b - 1) + (b - 1) == (i + 1) as int * (b - 1)) by (nonlinear_arith);
        }
        total = total + v[i] as i64;
        i = i + 1;
    }
    proof {
        assert(v@.take(i as int) =~= v@);
    }
    total
}

/// The largest number of a non-empty list.
pub fn largest_of(v: &Vec<i32>) -> (r: i32)
    requires
        v@.len() > 0,
    ensures
        v@.contains(r),
        forall|k: int| 0 <= k < v@.len() ==> v@[k] <= r,
{
    let mut largest: i32 = v[0];
    let mut j: usize = 1;
    while j < v.len()
        invariant
            1 <= j <= v@.len(),
            v@.contains(largest),
            forall|k: int| 0 <= k < j ==> v@[k] <= largest,
        decreases v@.len() - j,
    {
        if v[j] > largest {
            largest = v[j];
        }
        j = j + 1;
    }
    largest
}

/// Sums `low, low + step, low + step + step, ...` while the value is at most
/// `high`.
pub open spec fn spec_sum_with_step(low: int, high: int, step: int) -> int
    decreases high + step - low,
        when step >= 1
{
    if low > high {
        0
    } else {
        low + spec_sum_with_step(low + step, high, step)
    }
}

proof fn lemma_sum_with_step_nonneg(low: int, high: int, step: int)
    requires
        step >= 1,
        low >= 0,
    ensures
        spec_sum_with_step(low, high, step) >= 0,
    decreases high + step - low,
{
    if low <= high {
        lemma_sum_with_step_nonneg(low + step, high, step)
    }
}

/// Adds to `total` every `step`-th number from `low` up to `high`.
pub fn sum_with_step(total: &mut i32, low: i32, high: i32, step: i32)
    requires
        step >= 1,
        low >= 0,
        *old(total) >= 0,
        high as int + step as int <= i32::MAX,
        *old(total) + spec_sum_with_step(low as int, high as int, step as int) <= i32::MAX,
    ensures
        *final(total) == *old(total) + spec_sum_with_step(low as int, high as int, step as int),
{
    let mut current: i32 = low;
    while current <= high
        invariant
            step >= 1,
            low <= current,
            low >= 0,
            *total >= 0,
            high as int + step as int <= i32::MAX,
            *total + spec_sum_with_step(current as int, high as int, step as int) == *old(total)
                + spec_sum_with_step(low as int, high as int, step as int),
            *old(total) + spec_sum_with_step(low as int, high as int, step as int) <= i32::MAX,
        decreases high + step - current,
    {
        proof {
            lemma_sum_with_step_nonneg(current + step, high as int, step as int);
        }
        *total = *total + current;
        current = current + step;
    }
}

} // verus!
