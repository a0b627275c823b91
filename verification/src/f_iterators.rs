//! Transformations of lazy sequences, and two producers that never run dry.
//!
//! Each transformation pulls its input from an iterator, one item at a time,
//! and says what it returns over `vals.remaining()`, the items that the
//! iterator has yet to yield. For that to mean anything the iterator must keep
//! to the iterator laws of `vstd` (`obeys_prophetic_iter_laws`): it yields
//! those items in order and then ends. For the loop over it to end, it must
//! also carry a measure that goes down with every item (`decrease`). The
//! iterators of the standard collections do both.
//!
//! The producers are stepped with `next`, one item per call, or drained with
//! `take`.
use vstd::arithmetic::div_mod::{lemma_add_mod_noop, lemma_mul_mod_noop, lemma_small_mod};
use vstd::prelude::*;
use vstd::std_specs::iter::IteratorSpec;

verus! {

/// The sum of the squares of the items of `s`.
pub open spec fn sum_squares(s: Seq<u32>) -> nat
    decreases s.len(),
{
    if s.len() == 0 {
        0
    } else {
        sum_squares(s.drop_last()) + (s.last() * s.last()) as nat
    }
}

/// The squares of a prefix sum up to no more than those of the whole.
pub proof fn lemma_sum_squares_prefix(s: Seq<u32>, n: int)
    requires
        0 <= n <= s.len(),
    ensures
        sum_squares(s.take(n)) <= sum_squares(s),
    decreases s.len() - n,
{
    if n < s.len() {
        lemma_sum_squares_prefix(s, n + 1);
        assert(s.take(n + 1).drop_last() =~= s.take(n));
    } else {
        assert(s.take(n) =~= s);
    }
}

/// Squares each item and adds the squares up.
///
/// The caller sees to it that the sum fits in a `u32`; then no square and no
/// partial sum overflows either.
pub fn sum_of_squares(vals: impl Iterator<Item = u32>) -> (total: u32)
    requires
        vals.obeys_prophetic_iter_laws(),
        vals.decrease() is Some,
        sum_squares(vals.remaining()) <= u32::MAX,
    ensures
        total == sum_squares(vals.remaining()),
{
    let mut source = vals;
    let mut total: u32 = 0;
    let ghost all = vals.remaining();
    let ghost mut done: int = 0;
    loop
        invariant
            source.obeys_prophetic_iter_laws(),
            source.decrease() is Some,
            all == vals.remaining(),
            0 <= done <= all.len(),
            source.remaining() == all.skip(done),
            total == sum_squares(all.take(done)),
            sum_squares(all) <= u32::MAX,
        decreases source.decrease()->0,
    {
        match source.next() {
            Some(x) => {
                proof {
                    assert(x == all[done]);
                    assert(all.take(done + 1).drop_last() =~= all.take(done));
                    assert(source.remaining() =~= all.skip(done + 1));
                    lemma_sum_squares_prefix(all, done + 1);
                    assert(x * x <= u32::MAX) by (nonlinear_arith)
                        requires
                            0 <= sum_squares(all.take(done)) + x * x <= u32::MAX,
                    ;
                    done = done + 1;
                }
                total = total + x * x;
            },
            None => {
                proof {
                    assert(all.take(done) =~= all);
                }
                return total;
            },
        }
    }
}

/// The absolute value of `x`, which always fits in a `u32`: that of `i32::MIN`
/// is 2^31.
pub open spec fn abs_value(x: i32) -> u32 {
    if x < 0 {
        (-x) as u32
    } else {
        x as u32
    }
}

/// The map from a signed number to its absolute value.
pub open spec fn to_abs_value() -> spec_fn(i32) -> u32 {
    |x: i32| abs_value(x)
}

/// The test for an absolute value that is kept: one of at most 100.
pub open spec fn within_bound() -> spec_fn(u32) -> bool {
    |a: u32| a <= 100
}

/// The absolute values of the items of `s` that are at most 100, in the order
/// of `s`.
pub open spec fn bounded_abs(s: Seq<i32>) -> Seq<u32> {
    s.map_values(to_abs_value()).filter(within_bound())
}

/// Takes the absolute value of each item and keeps those that are at most 100,
/// in their order.
///
/// The absolute value is taken in a wider type, so `i32::MIN` gives 2^31 and is
/// dropped like any other large value.
pub fn bounded_absolute_values(vals: impl Iterator<Item = i32>) -> (kept: Vec<u32>)
    requires
        vals.obeys_prophetic_iter_laws(),
        vals.decrease() is Some,
    ensures
        kept@ == bounded_abs(vals.remaining()),
{
    let mut source = vals;
    let mut kept: Vec<u32> = Vec::new();
    let ghost all = vals.remaining();
    let ghost mut done: int = 0;
    proof {
        assert(all.take(0).map_values(to_abs_value()) =~= Seq::<u32>::empty());
    }
    loop
        invariant
            source.obeys_prophetic_iter_laws(),
            source.decrease() is Some,
            all == vals.remaining(),
            0 <= done <= all.len(),
            source.remaining() == all.skip(done),
            kept@ == bounded_abs(all.take(done)),
        decreases source.decrease()->0,
    {
        match source.next() {
            Some(x) => {
                let wide: i64 = x as i64;
                let magnitude: u32 = if wide < 0 {
                    (-wide) as u32
                } else {
                    wide as u32
                };
                proof {
                    let before = all.take(done);
                    assert(x == all[done]);
                    assert(magnitude == abs_value(x));
                    assert(all.take(done + 1) =~= before.push(x));
                    assert(source.remaining() =~= all.skip(done + 1));
                    before.lemma_push_map_commute(to_abs_value(), x);
                    before.map_values(to_abs_value()).lemma_filter_push(
                        magnitude,
                        within_bound(),
                    );
                    done = done + 1;
                }
                if magnitude <= 100 {
                    kept.push(magnitude);
                }
            },
            None => {
                proof {
                    assert(all.take(done) =~= all);
                }
                return kept;
            },
        }
    }
}

/// The test for an even number.
pub open spec fn is_even() -> spec_fn(u32) -> bool {
    |x: u32| x % 2 == 0
}

/// What [`first_n_even`] makes of the items `s`: nothing where `s` is empty;
/// else the first `s[0]` even items of the rest, or all of them where there are
/// fewer.
pub open spec fn first_evens(s: Seq<u32>) -> Option<Seq<u32>> {
    if s.len() == 0 {
        None
    } else {
        let evens = s.drop_first().filter(is_even());
        Some(
            if s[0] < evens.len() {
                evens.take(s[0] as int)
            } else {
                evens
            },
        )
    }
}

/// Reads the first item as a count `n`, then collects the first `n` even items
/// among those that follow, in their order.
///
/// An empty input gives `None`. An input that holds fewer than `n` even items
/// after the first gives them all, possibly none. No item is pulled from `vals`
/// once `n` even ones are found.
pub fn first_n_even(vals: impl Iterator<Item = u32>) -> (found: Option<Vec<u32>>)
    requires
        vals.obeys_prophetic_iter_laws(),
        vals.decrease() is Some,
    ensures
        found is Some <==> vals.remaining().len() > 0,
        match found {
            Some(evens) => Some(evens@) == first_evens(vals.remaining()),
            None => first_evens(vals.remaining()) is None,
        },
{
    let mut source = vals;
    let ghost all = vals.remaining();
    let n = match source.next() {
        Some(n) => n,
        None => {
            return None;
        },
    };
    let ghost rest = all.drop_first();
    let mut evens: Vec<u32> = Vec::new();
    let mut count: u32 = 0;
    let ghost mut done: int = 0;
    proof {
        assert(rest.take(0) =~= Seq::<u32>::empty());
        assert(rest.skip(0) =~= rest);
    }
    while count < n
        invariant
            source.obeys_prophetic_iter_laws(),
            source.decrease() is Some,
            all == vals.remaining(),
            all.len() > 0,
            n == all[0],
            rest == all.drop_first(),
            0 <= done <= rest.len(),
            source.remaining() == rest.skip(done),
            evens@ == rest.take(done).filter(is_even()),
            count == evens@.len(),
            count <= n,
        decreases source.decrease()->0,
    {
        match source.next() {
            Some(x) => {
                proof {
                    let before = rest.take(done);
                    assert(x == rest[done]);
                    assert(rest.take(done + 1) =~= before.push(x));
                    assert(source.remaining() =~= rest.skip(done + 1));
                    before.lemma_filter_push(x, is_even());
                    done = done + 1;
                }
                if x % 2 == 0 {
                    evens.push(x);
                    count = count + 1;
                }
            },
            None => {
                proof {
                    assert(rest.take(done) =~= rest);
                }
                return Some(evens);
            },
        }
    }
    proof {
        let total = rest.filter(is_even());
        assert(rest =~= rest.take(done) + rest.skip(done));
        Seq::filter_distributes_over_add(rest.take(done), rest.skip(done), is_even());
        assert(total.take(n as int) =~= evens@);
    }
    Some(evens)
}

/// The `k`-th Fibonacci number, counted from `fib_number(0) == 0`.
pub open spec fn fib_number(k: nat) -> nat
    decreases k,
{
    if k < 2 {
        k
    } else {
        fib_number((k - 2) as nat) + fib_number((k - 1) as nat)
    }
}

/// The item that a [`Fibonacci`] producer yields at position `k`: the `k`-th
/// Fibonacci number, reduced modulo 2^32 once it no longer fits in a `u32`.
pub open spec fn fib_item(k: nat) -> u32 {
    (fib_number(k) % 0x1_0000_0000) as u32
}

/// Every item from the third on is the wrapping sum of the two before it.
pub proof fn lemma_fib_item_step(k: nat)
    requires
        k >= 2,
    ensures
        fib_item(k) == (fib_item((k - 2) as nat) + fib_item((k - 1) as nat)) % 0x1_0000_0000,
{
    lemma_add_mod_noop(
        fib_number((k - 2) as nat) as int,
        fib_number((k - 1) as nat) as int,
        0x1_0000_0000,
    );
}

/// The Fibonacci numbers never go down.
pub proof fn lemma_fib_number_grows(i: nat, j: nat)
    requires
        i <= j,
    ensures
        fib_number(i) <= fib_number(j),
    decreases j,
{
    if i < j {
        lemma_fib_number_grows(i, (j - 1) as nat);
    }
}

/// The largest Fibonacci number that fits in a `u32`, and the one after it.
proof fn lemma_fib_number_at_the_limit()
    ensures
        fib_number(47) == 2971215073,
        fib_number(48) == 4807526976,
{
    assert(fib_number(0) == 0);
    assert(fib_number(1) == 1);
    assert(fib_number(2) == 1);
    assert(fib_number(3) == 2);
    assert(fib_number(4) == 3);
    assert(fib_number(5) == 5);
    assert(fib_number(6) == 8);
    assert(fib_number(7) == 13);
    assert(fib_number(8) == 21);
    assert(fib_number(9) == 34);
    assert(fib_number(10) == 55);
    assert(fib_number(11) == 89);
    assert(fib_number(12) == 144);
    assert(fib_number(13) == 233);
    assert(fib_number(14) == 377);
    assert(fib_number(15) == 610);
    assert(fib_number(16) == 987);
    assert(fib_number(17) == 1597);
    assert(fib_number(18) == 2584);
    assert(fib_number(19) == 4181);
    assert(fib_number(20) == 6765);
    assert(fib_number(21) == 10946);
    assert(fib_number(22) == 17711);
    assert(fib_number(23) == 28657);
    assert(fib_number(24) == 46368);
    assert(fib_number(25) == 75025);
    assert(fib_number(26) == 121393);
    assert(fib_number(27) == 196418);
    assert(fib_number(28) == 317811);
    assert(fib_number(29) == 514229);
    assert(fib_number(30) == 832040);
    assert(fib_number(31) == 1346269);
    assert(fib_number(32) == 2178309);
    assert(fib_number(33) == 3524578);
    assert(fib_number(34) == 5702887);
    assert(fib_number(35) == 9227465);
    assert(fib_number(36) == 14930352);
    assert(fib_number(37) == 24157817);
    assert(fib_number(38) == 39088169);
    assert(fib_number(39) == 63245986);
    assert(fib_number(40) == 102334155);
    assert(fib_number(41) == 165580141);
    assert(fib_number(42) == 267914296);
    assert(fib_number(43) == 433494437);
    assert(fib_number(44) == 701408733);
    assert(fib_number(45) == 1134903170);
    assert(fib_number(46) == 1836311903);
    assert(fib_number(47) == 2971215073);
    assert(fib_number(48) == 4807526976);
}

/// The items at the positions up to 47 are the Fibonacci numbers themselves,
/// and no later one is: from position 48 on the numbers are too large for a
/// `u32`.
pub proof fn lemma_fib_item_exact(k: nat)
    ensures
        k <= 47 <==> fib_item(k) == fib_number(k),
{
    lemma_fib_number_at_the_limit();
    if k <= 47 {
        lemma_fib_number_grows(k, 47);
        lemma_small_mod(fib_number(k), 0x1_0000_0000);
    } else {
        lemma_fib_number_grows(48, k);
    }
}

/// What a [`Fibonacci`] producer remembers of the items it has yielded.
enum Remembered {
    /// Nothing has been yielded.
    Nothing,
    /// One item has been yielded.
    One(u32),
    /// At least two items have been yielded; these are the last two, oldest first.
    Two(u32, u32),
}

/// A producer of the Fibonacci sequence 0, 1, 1, 2, 3, 5, 8, ...
///
/// It never runs dry: sums are taken with wrapping arithmetic, so the items are
/// the Fibonacci numbers modulo 2^32. A producer only moves forward; to start
/// over, make a fresh one with `Fibonacci::default()`.
pub struct Fibonacci {
    seen: Remembered,
    emitted: Ghost<nat>,
}

impl Fibonacci {
    #[verifier::type_invariant]
    spec fn consistent(self) -> bool {
        match self.seen {
            Remembered::Nothing => self.emitted@ == 0,
            Remembered::One(a) => self.emitted@ == 1 && a == fib_item(0),
            Remembered::Two(a, b) => {
                &&& self.emitted@ >= 2
                &&& a == fib_item((self.emitted@ - 2) as nat)
                &&& b == fib_item((self.emitted@ - 1) as nat)
            },
        }
    }

    /// How many items this producer has yielded so far.
    pub closed spec fn position(&self) -> nat {
        self.emitted@
    }

    /// Yields the next item and moves one position forward. The result is never
    /// `None`.
    pub fn next(&mut self) -> (item: Option<u32>)
        ensures
            item == Some(fib_item(old(self).position())),
            final(self).position() == old(self).position() + 1,
    {
        proof {
            use_type_invariant(&*self);
        }
        let ghost k = self.emitted@;
        match self.seen {
            Remembered::Nothing => {
                *self = Fibonacci { seen: Remembered::One(0), emitted: Ghost(1) };
                Some(0)
            },
            Remembered::One(a) => {
                *self = Fibonacci { seen: Remembered::Two(a, 1), emitted: Ghost(2) };
                Some(1)
            },
            Remembered::Two(a, b) => {
                let sum = a.wrapping_add(b);
                proof {
                    lemma_fib_item_step(k);
                }
                *self = Fibonacci { seen: Remembered::Two(b, sum), emitted: Ghost(k + 1) };
                Some(sum)
            },
        }
    }

    /// Yields the next `n` items, in order.
    pub fn take(self, n: usize) -> (items: Vec<u32>)
        ensures
            items@.len() == n,
            forall|i: int| 0 <= i < n ==> items@[i] == fib_item((self.position() + i) as nat),
    {
        let mut source = self;
        let mut items: Vec<u32> = Vec::new();
        while items.len() < n
            invariant
                items@.len() <= n,
                source.position() == self.position() + items@.len(),
                forall|i: int|
                    0 <= i < items@.len() ==> items@[i] == fib_item((self.position() + i) as nat),
            decreases n - items@.len(),
        {
            if let Some(item) = source.next() {
                items.push(item);
            }
        }
        items
    }
}

impl Default for Fibonacci {
    /// A producer that has yielded nothing yet.
    fn default() -> (fresh: Fibonacci)
        ensures
            fresh.position() == 0,
    {
        Fibonacci { seen: Remembered::Nothing, emitted: Ghost(0) }
    }
}

/// The item that a [`WholeNumberSquares`] producer yields at position `k`: the
/// square of `k`, reduced modulo 2^32 once it no longer fits in a `u32`.
pub open spec fn square_item(k: nat) -> u32 {
    ((k * k) % 0x1_0000_0000) as u32
}

/// Up to position 65535 the items are the squares themselves.
pub proof fn lemma_square_item_exact(k: nat)
    requires
        k < 0x1_0000,
    ensures
        square_item(k) == k * k,
{
    assert(k * k < 0x1_0000_0000) by (nonlinear_arith)
        requires
            k < 0x1_0000,
    ;
    lemma_small_mod(k * k, 0x1_0000_0000);
}

/// A producer of the squares of the whole numbers: 0, 1, 4, 9, 16, 25, ...
///
/// It never runs dry: both the count and the squares use wrapping arithmetic,
/// so the item at position `k` is `k * k` modulo 2^32.
pub struct WholeNumberSquares {
    root: u32,
    emitted: Ghost<nat>,
}

impl WholeNumberSquares {
    #[verifier::type_invariant]
    spec fn consistent(self) -> bool {
        self.root == self.emitted@ % 0x1_0000_0000
    }

    /// How many items this producer has yielded so far.
    pub closed spec fn position(&self) -> nat {
        self.emitted@
    }

    /// Yields the next item and moves one position forward. The result is never
    /// `None`.
    pub fn next(&mut self) -> (item: Option<u32>)
        ensures
            item == Some(square_item(old(self).position())),
            final(self).position() == old(self).position() + 1,
    {
        proof {
            use_type_invariant(&*self);
        }
        let ghost k = self.emitted@;
        let square = self.root.wrapping_mul(self.root);
        let following = self.root.wrapping_add(1);
        proof {
            lemma_mul_mod_noop(k as int, k as int, 0x1_0000_0000);
            lemma_add_mod_noop(k as int, 1, 0x1_0000_0000);
        }
        *self = WholeNumberSquares { root: following, emitted: Ghost(k + 1) };
        Some(square)
    }

    /// Yields the next `n` items, in order.
    pub fn take(self, n: usize) -> (items: Vec<u32>)
        ensures
            items@.len() == n,
            forall|i: int| 0 <= i < n ==> items@[i] == square_item((self.position() + i) as nat),
    {
        let mut source = self;
        let mut items: Vec<u32> = Vec::new();
        while items.len() < n
            invariant
                items@.len() <= n,
                source.position() == self.position() + items@.len(),
                forall|i: int|
                    0 <= i < items@.len() ==> items@[i] == square_item(
                        (self.position() + i) as nat,
                    ),
            decreases n - items@.len(),
        {
            if let Some(item) = source.next() {
                items.push(item);
            }
        }
        items
    }
}

/// A producer of the squares of the whole numbers, at its start.
pub fn square_whole_numbers() -> (squares: WholeNumberSquares)
    ensures
        squares.position() == 0,
{
    WholeNumberSquares { root: 0, emitted: Ghost(0) }
}

/// How hard this part was found, on a scale from 0, extremely easy, to 255,
/// extremely hard.
pub fn how_hard_was_this_section() -> (rating: u8)
    ensures
        rating == 255,
{
    255
}

/// How much time, in hours, went into this part.
pub fn how_many_hours_did_you_spend_on_this_section() -> (hours: u8)
    ensures
        hours == 3,
{
    3
}

} // verus!
