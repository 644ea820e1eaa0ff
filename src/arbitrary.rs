use vstd::prelude::*;
use vstd::wrapping::u64_specs::{wrapping_add, wrapping_mul};
use vstd::std_specs::hash::obeys_key_model;
use std::collections::{HashMap, HashSet};
use std::hash::Hash;

verus! {

broadcast use vstd::std_specs::hash::group_hash_axioms;

/// Step added to a generator's state at each draw.
pub const GOLDEN_GAMMA: u64 = 0x9e37_79b9_7f4a_7c15;

/// The state that follows `s`.
pub open spec fn advance(s: u64) -> u64 {
    wrapping_add(s, GOLDEN_GAMMA)
}

/// The output mixer of a splitmix generator.
pub open spec fn mix(z: u64) -> u64 {
    let a = wrapping_mul(z ^ (z >> 30u64), 0xbf58_476d_1ce4_e5b9u64);
    let b = wrapping_mul(a ^ (a >> 27u64), 0x94d0_49bb_1331_11ebu64);
    b ^ (b >> 31u64)
}

/// The word drawn from a generator in state `s`.
pub open spec fn draw(s: u64) -> u64 {
    mix(advance(s))
}

/// An explicit source of pseudo-random words: the same seed gives the same
/// values, so a generated input can be replayed.
pub struct Gen {
    state: u64,
}

impl Gen {
    pub closed spec fn state(&self) -> u64 {
        self.state
    }

    pub fn new(seed: u64) -> (g: Gen)
        ensures
            g.state() == seed,
    {
        Gen { state: seed }
    }

    /// Draws the next word.
    pub fn next_u64(&mut self) -> (r: u64)
        ensures
            final(self).state() == advance(old(self).state()),
            r == draw(old(self).state()),
    {
        self.state = self.state.wrapping_add(GOLDEN_GAMMA);
        let z = self.state;
        let a = (z ^ (z >> 30u64)).wrapping_mul(0xbf58_476d_1ce4_e5b9u64);
        let b = (a ^ (a >> 27u64)).wrapping_mul(0x94d0_49bb_1331_11ebu64);
        b ^ (b >> 31u64)
    }

    /// Draws a fair coin: the top bit of the next word.
    pub fn next_bool(&mut self) -> (r: bool)
        ensures
            final(self).state() == advance(old(self).state()),
            r == (draw(old(self).state()) >> 63u64 == 1),
    {
        let w = self.next_u64();
        w >> 63u64 == 1
    }
}

/// A type whose values are drawn straight from a generator, whatever the size.
pub trait Rand: Sized {
    fn rand(g: &mut Gen) -> (r: Self)
        ensures
            final(g).state() == advance(old(g).state()),
    ;
}

impl Rand for u8 {
    fn rand(g: &mut Gen) -> (r: u8)
        ensures
            r == draw(old(g).state()) % 256,
    {
        (g.next_u64() % 256) as u8
    }
}

impl Rand for u64 {
    fn rand(g: &mut Gen) -> (r: u64)
        ensures
            r == draw(old(g).state()),
    {
        g.next_u64()
    }
}

impl Rand for i8 {
    fn rand(g: &mut Gen) -> (r: i8)
        ensures
            r == (draw(old(g).state()) % 256) - 128,
    {
        ((g.next_u64() % 256) as i16 - 128) as i8
    }
}

impl Rand for i64 {
    fn rand(g: &mut Gen) -> (r: i64)
        ensures
            r == draw(old(g).state()) as int - 0x8000_0000_0000_0000,
    {
        let w = g.next_u64();
        if w >= 0x8000_0000_0000_0000u64 {
            (w - 0x8000_0000_0000_0000u64) as i64
        } else {
            -((0x8000_0000_0000_0000u64 - w) as i128) as i64
        }
    }
}

impl Rand for bool {
    fn rand(g: &mut Gen) -> (r: bool)
        ensures
            r == (draw(old(g).state()) >> 63u64 == 1),
    {
        g.next_bool()
    }
}

impl Rand for () {
    fn rand(g: &mut Gen) -> (r: ()) {
        g.next_u64();
    }
}

/// A type whose values can be generated at random, scaled by a size.
pub trait Arbitrary: Sized {
    /// What holds of every value generated at size `size`.
    open spec fn within(&self, size: nat) -> bool {
        true
    }

    /// What holds of a value generated at size `size` by a generator that
    /// went from state `s0` to state `s1` doing so.
    open spec fn generated(&self, size: u64, s0: u64, s1: u64) -> bool {
        true
    }

    /// A value chosen at random; its size is scaled by `size`.
    fn arbitrary(size: u64, g: &mut Gen) -> (r: Self)
        ensures
            r.within(size as nat),
            r.generated(size, old(g).state(), final(g).state()),
    ;
}

/// Creates an arbitrary value of type `T`.
pub fn arbitrary<T: Arbitrary>(size: u64, g: &mut Gen) -> (r: T)
    ensures
        r.within(size as nat),
        r.generated(size, old(g).state(), final(g).state()),
{
    T::arbitrary(size, g)
}

/// Wraps a type whose values are drawn straight from the generator.
pub struct Random<T>(pub T);

/// A small number, at most sixteen times the size it was generated at.
pub struct SmallN(pub u64);

/// Largest small count for `size`, as a multiple of it.
pub const SMALL_N_FACTOR: u64 = 16;

/// Largest count `small_n` draws for `size`.
pub open spec fn cap_of(size: u64) -> nat {
    if size <= u64::MAX / SMALL_N_FACTOR {
        (SMALL_N_FACTOR * size) as nat
    } else {
        u64::MAX as nat
    }
}

/// One in `odds_of(size)` draws ends the count.
pub open spec fn odds_of(size: u64) -> u64 {
    if size < u64::MAX {
        (size + 1) as u64
    } else {
        u64::MAX
    }
}

/// Counting up from `n` with the generator in state `s`: while under `cap`,
/// a word is drawn; one divisible by `odds` ends the count, any other adds
/// one. Gives the count and the generator's state after it.
pub open spec fn small_count(s: u64, n: nat, cap: nat, odds: u64) -> (nat, u64)
    decreases cap - n,
{
    if n >= cap {
        (n, s)
    } else if draw(s) % odds == 0 {
        (n, advance(s))
    } else {
        small_count(advance(s), n + 1, cap, odds)
    }
}

/// The small count for `size` drawn from a generator in state `s`, and the
/// state after it.
pub open spec fn small_n_of(s: u64, size: u64) -> (nat, u64) {
    small_count(s, 0, cap_of(size), odds_of(size))
}

/// A small count drawn for `size`: a discrete exponential law with mean about
/// `size` (each further unit is kept with odds `size` in `size + 1`), cut off
/// at `SMALL_N_FACTOR * size`.
pub fn small_n(size: u64, g: &mut Gen) -> (r: u64)
    ensures
        (r as nat, final(g).state()) == small_n_of(old(g).state(), size),
        r <= SMALL_N_FACTOR * size,
{
    let cap: u64 = if size <= u64::MAX / SMALL_N_FACTOR {
        SMALL_N_FACTOR * size
    } else {
        u64::MAX
    };
    let odds: u64 = if size < u64::MAX {
        size + 1
    } else {
        u64::MAX
    };
    let ghost start = g.state();
    let mut n: u64 = 0;
    while n < cap
        invariant_except_break
            small_count(g.state(), n as nat, cap as nat, odds) == small_n_of(start, size),
        invariant
            n <= cap,
            cap == cap_of(size),
            odds == odds_of(size),
            cap <= SMALL_N_FACTOR * size,
            odds > 0,
        ensures
            (n as nat, g.state()) == small_n_of(start, size),
        decreases cap - n,
    {
        if g.next_u64() % odds == 0 {
            break;
        }
        n = n + 1;
    }
    n
}

/// Yields `count` arbitrary values of size `size`.
pub struct Iter {
    count: u64,
    size: u64,
}

impl Iter {
    pub closed spec fn count(&self) -> u64 {
        self.count
    }

    pub closed spec fn size(&self) -> u64 {
        self.size
    }

    /// The next value, while any is left.
    pub fn next<T: Arbitrary>(&mut self, g: &mut Gen) -> (r: Option<T>)
        ensures
            final(self).size() == old(self).size(),
            old(self).count() == 0 ==> r is None && final(self).count() == 0,
            old(self).count() > 0 ==> {
                &&& final(self).count() == old(self).count() - 1
                &&& r matches Some(x) && x.within(old(self).size() as nat) && x.generated(
                    old(self).size(),
                    old(g).state(),
                    final(g).state(),
                )
            },
    {
        if self.count > 0 {
            self.count = self.count - 1;
            Some(arbitrary(self.size, g))
        } else {
            None
        }
    }

    /// Bounds on the number of values left: exactly `count`.
    pub fn size_hint(&self) -> (r: (u64, Option<u64>))
        ensures
            r == (self.count(), Some(self.count())),
    {
        (self.count, Some(self.count))
    }
}

/// Yields a small number of arbitrary values, each of size `size`.
pub fn arbiter(size: u64, g: &mut Gen) -> (it: Iter)
    ensures
        it.size() == size,
        (it.count() as nat, final(g).state()) == small_n_of(old(g).state(), size),
        it.count() <= SMALL_N_FACTOR * size,
{
    Iter { count: small_n(size, g), size }
}

impl Arbitrary for u8 {
    open spec fn generated(&self, size: u64, s0: u64, s1: u64) -> bool {
        *self == draw(s0) % 256 && s1 == advance(s0)
    }

    fn arbitrary(size: u64, g: &mut Gen) -> (r: u8) {
        u8::rand(g)
    }
}

impl Arbitrary for u64 {
    open spec fn generated(&self, size: u64, s0: u64, s1: u64) -> bool {
        *self == draw(s0) && s1 == advance(s0)
    }

    fn arbitrary(size: u64, g: &mut Gen) -> (r: u64) {
        u64::rand(g)
    }
}

impl Arbitrary for i8 {
    open spec fn generated(&self, size: u64, s0: u64, s1: u64) -> bool {
        *self == (draw(s0) % 256) - 128 && s1 == advance(s0)
    }

    fn arbitrary(size: u64, g: &mut Gen) -> (r: i8) {
        i8::rand(g)
    }
}

impl Arbitrary for i64 {
    open spec fn generated(&self, size: u64, s0: u64, s1: u64) -> bool {
        *self == draw(s0) as int - 0x8000_0000_0000_0000 && s1 == advance(s0)
    }

    fn arbitrary(size: u64, g: &mut Gen) -> (r: i64) {
        i64::rand(g)
    }
}

impl Arbitrary for bool {
    open spec fn generated(&self, size: u64, s0: u64, s1: u64) -> bool {
        *self == (draw(s0) >> 63u64 == 1) && s1 == advance(s0)
    }

    fn arbitrary(size: u64, g: &mut Gen) -> (r: bool) {
        bool::rand(g)
    }
}

impl Arbitrary for () {
    open spec fn generated(&self, size: u64, s0: u64, s1: u64) -> bool {
        s1 == advance(s0)
    }

    fn arbitrary(size: u64, g: &mut Gen) -> (r: ()) {
        <()>::rand(g)
    }
}

impl Arbitrary for char {
    open spec fn within(&self, size: nat) -> bool {
        (*self as u32) < 256
    }

    open spec fn generated(&self, size: u64, s0: u64, s1: u64) -> bool {
        *self as u32 == draw(s0) % 256 && s1 == advance(s0)
    }

    /// A character of the first 256 code points.
    fn arbitrary(size: u64, g: &mut Gen) -> (r: char) {
        let b = u8::rand(g);
        b as char
    }
}

impl<T: Rand> Arbitrary for Random<T> {
    open spec fn generated(&self, size: u64, s0: u64, s1: u64) -> bool {
        s1 == advance(s0)
    }

    fn arbitrary(size: u64, g: &mut Gen) -> (r: Random<T>) {
        Random(T::rand(g))
    }
}

impl Arbitrary for SmallN {
    open spec fn within(&self, size: nat) -> bool {
        self.0 <= SMALL_N_FACTOR * size
    }

    open spec fn generated(&self, size: u64, s0: u64, s1: u64) -> bool {
        (self.0 as nat, s1) == small_n_of(s0, size)
    }

    fn arbitrary(size: u64, g: &mut Gen) -> (r: SmallN) {
        SmallN(small_n(size, g))
    }
}

impl<T: Arbitrary> Arbitrary for Box<T> {
    open spec fn within(&self, size: nat) -> bool {
        (**self).within(size)
    }

    open spec fn generated(&self, size: u64, s0: u64, s1: u64) -> bool {
        (**self).generated(size, s0, s1)
    }

    fn arbitrary(size: u64, g: &mut Gen) -> (r: Box<T>) {
        Box::new(arbitrary(size, g))
    }
}

impl<T: Arbitrary> Arbitrary for Vec<T> {
    open spec fn within(&self, size: nat) -> bool {
        &&& self@.len() <= SMALL_N_FACTOR * size
        &&& forall|i: int| 0 <= i < self@.len() ==> (#[trigger] self@[i]).within(size)
    }

    open spec fn generated(&self, size: u64, s0: u64, s1: u64) -> bool {
        self@.len() == small_n_of(s0, size).0
    }

    /// A small number of arbitrary elements.
    fn arbitrary(size: u64, g: &mut Gen) -> (r: Vec<T>) {
        let mut it = arbiter(size, g);
        let ghost total = it.count();
        let mut v: Vec<T> = Vec::new();
        while it.count > 0
            invariant
                it.size() == size,
                v@.len() + it.count() == total,
                v@.len() + it.count() <= SMALL_N_FACTOR * size,
                forall|i: int| 0 <= i < v@.len() ==> (#[trigger] v@[i]).within(size as nat),
            decreases it.count(),
        {
            let x: Option<T> = it.next(g);
            match x {
                Some(x) => v.push(x),
                None => {},
            }
        }
        v
    }
}

/// An ASCII letter or digit.
pub open spec fn is_alphanumeric(c: char) -> bool {
    let u = c as u32;
    (65 <= u <= 90) || (97 <= u <= 122) || (48 <= u <= 57)
}

/// The `i`-th of the 62 ASCII letters and digits: capitals, small letters, digits.
fn alphanumeric(i: u64) -> (c: char)
    requires
        i < 62,
    ensures
        is_alphanumeric(c),
{
    let b: u8 = if i < 26 {
        65 + i as u8
    } else if i < 52 {
        97 + (i - 26) as u8
    } else {
        48 + (i - 52) as u8
    };
    b as char
}

/// Relies on `String::push`: the character is appended at the end.
#[verifier::external_body]
fn push_char(s: &mut String, c: char)
    ensures
        final(s)@ == old(s)@.push(c),
{
    s.push(c);
}

impl Arbitrary for String {
    open spec fn within(&self, size: nat) -> bool {
        &&& self@.len() <= SMALL_N_FACTOR * size
        &&& forall|i: int| 0 <= i < self@.len() ==> is_alphanumeric(#[trigger] self@[i])
    }

    open spec fn generated(&self, size: u64, s0: u64, s1: u64) -> bool {
        self@.len() == small_n_of(s0, size).0
    }

    /// A small number of ASCII letters and digits.
    fn arbitrary(size: u64, g: &mut Gen) -> (r: String) {
        let n = small_n(size, g);
        let mut s = String::new();
        let mut i: u64 = 0;
        while i < n
            invariant
                i <= n,
                n <= SMALL_N_FACTOR * size,
                s@.len() == i,
                forall|j: int| 0 <= j < s@.len() ==> is_alphanumeric(#[trigger] s@[j]),
            decreases n - i,
        {
            let c = alphanumeric(g.next_u64() % 62);
            push_char(&mut s, c);
            i = i + 1;
        }
        s
    }
}

impl<T: Arbitrary> Arbitrary for Option<T> {
    open spec fn within(&self, size: nat) -> bool {
        self matches Some(x) ==> x.within(size)
    }

    /// `Some` exactly when the coin drawn first comes up true, holding a
    /// value generated after that draw.
    open spec fn generated(&self, size: u64, s0: u64, s1: u64) -> bool {
        match self {
            Some(x) => draw(s0) >> 63u64 == 1 && x.generated(size, advance(s0), s1),
            None => draw(s0) >> 63u64 != 1 && s1 == advance(s0),
        }
    }

    fn arbitrary(size: u64, g: &mut Gen) -> (r: Option<T>) {
        if g.next_bool() {
            Some(arbitrary(size, g))
        } else {
            None
        }
    }
}

impl<T: Arbitrary, U: Arbitrary> Arbitrary for Result<T, U> {
    open spec fn within(&self, size: nat) -> bool {
        match self {
            Ok(x) => x.within(size),
            Err(e) => e.within(size),
        }
    }

    /// `Ok` exactly when the coin drawn first comes up true, holding a
    /// value generated after that draw.
    open spec fn generated(&self, size: u64, s0: u64, s1: u64) -> bool {
        match self {
            Ok(x) => draw(s0) >> 63u64 == 1 && x.generated(size, advance(s0), s1),
            Err(e) => draw(s0) >> 63u64 != 1 && e.generated(size, advance(s0), s1),
        }
    }

    fn arbitrary(size: u64, g: &mut Gen) -> (r: Result<T, U>) {
        if g.next_bool() {
            Ok(arbitrary(size, g))
        } else {
            Err(arbitrary(size, g))
        }
    }
}

impl<A: Arbitrary, B: Arbitrary> Arbitrary for (A, B) {
    open spec fn within(&self, size: nat) -> bool {
        self.0.within(size) && self.1.within(size)
    }

    /// The components are generated in order, each from the state the
    /// previous one left.
    open spec fn generated(&self, size: u64, s0: u64, s1: u64) -> bool {
        exists|m1: u64|
            #![trigger self.0.generated(size, s0, m1), self.1.generated(size, m1, s1)]
            {
                &&& self.0.generated(size, s0, m1)
                &&& self.1.generated(size, m1, s1)
            }
    }

    fn arbitrary(size: u64, g: &mut Gen) -> (r: (A, B)) {
        let ghost t0 = g.state();
        let a: A = arbitrary(size, g);
        let ghost t1 = g.state();
        let b: B = arbitrary(size, g);
        let r = (a, b);
        assert({
            &&& r.0.generated(size, t0, t1)
            &&& r.1.generated(size, t1, g.state())
        });
        r
    }
}

impl<A: Arbitrary, B: Arbitrary, C: Arbitrary> Arbitrary for (A, B, C) {
    open spec fn within(&self, size: nat) -> bool {
        self.0.within(size) && self.1.within(size) && self.2.within(size)
    }

    /// The components are generated in order, each from the state the
    /// previous one left.
    open spec fn generated(&self, size: u64, s0: u64, s1: u64) -> bool {
        exists|m1: u64, m2: u64|
            #![trigger self.0.generated(size, s0, m1), self.1.generated(size, m1, m2), self.2.generated(size, m2, s1)]
            {
                &&& self.0.generated(size, s0, m1)
                &&& self.1.generated(size, m1, m2)
                &&& self.2.generated(size, m2, s1)
            }
    }

    fn arbitrary(size: u64, g: &mut Gen) -> (r: (A, B, C)) {
        let ghost t0 = g.state();
        let a: A = arbitrary(size, g);
        let ghost t1 = g.state();
        let b: B = arbitrary(size, g);
        let ghost t2 = g.state();
        let c: C = arbitrary(size, g);
        let r = (a, b, c);
        assert({
            &&& r.0.generated(size, t0, t1)
            &&& r.1.generated(size, t1, t2)
            &&& r.2.generated(size, t2, g.state())
        });
        r
    }
}

impl<A: Arbitrary, B: Arbitrary, C: Arbitrary, D: Arbitrary> Arbitrary for (A, B, C, D) {
    open spec fn within(&self, size: nat) -> bool {
        self.0.within(size) && self.1.within(size) && self.2.within(size) && self.3.within(size)
    }

    /// The components are generated in order, each from the state the
    /// previous one left.
    open spec fn generated(&self, size: u64, s0: u64, s1: u64) -> bool {
        exists|m1: u64, m2: u64, m3: u64|
            #![trigger self.0.generated(size, s0, m1), self.1.generated(size, m1, m2), self.2.generated(size, m2, m3), self.3.generated(size, m3, s1)]
            {
                &&& self.0.generated(size, s0, m1)
                &&& self.1.generated(size, m1, m2)
                &&& self.2.generated(size, m2, m3)
                &&& self.3.generated(size, m3, s1)
            }
    }

    fn arbitrary(size: u64, g: &mut Gen) -> (r: (A, B, C, D)) {
        let ghost t0 = g.state();
        let a: A = arbitrary(size, g);
        let ghost t1 = g.state();
        let b: B = arbitrary(size, g);
        let ghost t2 = g.state();
        let c: C = arbitrary(size, g);
        let ghost t3 = g.state();
        let d: D = arbitrary(size, g);
        let r = (a, b, c, d);
        assert({
            &&& r.0.generated(size, t0, t1)
            &&& r.1.generated(size, t1, t2)
            &&& r.2.generated(size, t2, t3)
            &&& r.3.generated(size, t3, g.state())
        });
        r
    }
}

impl<A: Arbitrary, B: Arbitrary, C: Arbitrary, D: Arbitrary, E: Arbitrary> Arbitrary for (A, B, C, D, E) {
    open spec fn within(&self, size: nat) -> bool {
        self.0.within(size) && self.1.within(size) && self.2.within(size) && self.3.within(size) && self.4.within(size)
    }

    /// The components are generated in order, each from the state the
    /// previous one left.
    open spec fn generated(&self, size: u64, s0: u64, s1: u64) -> bool {
        exists|m1: u64, m2: u64, m3: u64, m4: u64|
            #![trigger self.0.generated(size, s0, m1), self.1.generated(size, m1, m2), self.2.generated(size, m2, m3), self.3.generated(size, m3, m4), self.4.generated(size, m4, s1)]
            {
                &&& self.0.generated(size, s0, m1)
                &&& self.1.generated(size, m1, m2)
                &&& self.2.generated(size, m2, m3)
                &&& self.3.generated(size, m3, m4)
                &&& self.4.generated(size, m4, s1)
            }
    }

    fn arbitrary(size: u64, g: &mut Gen) -> (r: (A, B, C, D, E)) {
        let ghost t0 = g.state();
        let a: A = arbitrary(size, g);
        let ghost t1 = g.state();
        let b: B = arbitrary(size, g);
        let ghost t2 = g.state();
        let c: C = arbitrary(size, g);
        let ghost t3 = g.state();
        let d: D = arbitrary(size, g);
        let ghost t4 = g.state();
        let e: E = arbitrary(size, g);
        let r = (a, b, c, d, e);
        assert({
            &&& r.0.generated(size, t0, t1)
            &&& r.1.generated(size, t1, t2)
            &&& r.2.generated(size, t2, t3)
            &&& r.3.generated(size, t3, t4)
            &&& r.4.generated(size, t4, g.state())
        });
        r
    }
}

impl<A: Arbitrary, B: Arbitrary, C: Arbitrary, D: Arbitrary, E: Arbitrary, F: Arbitrary> Arbitrary for (A, B, C, D, E, F) {
    open spec fn within(&self, size: nat) -> bool {
        self.0.within(size) && self.1.within(size) && self.2.within(size) && self.3.within(size) && self.4.within(size) && self.5.within(size)
    }

    /// The components are generated in order, each from the state the
    /// previous one left.
    open spec fn generated(&self, size: u64, s0: u64, s1: u64) -> bool {
        exists|m1: u64, m2: u64, m3: u64, m4: u64, m5: u64|
            #![trigger self.0.generated(size, s0, m1), self.1.generated(size, m1, m2), self.2.generated(size, m2, m3), self.3.generated(size, m3, m4), self.4.generated(size, m4, m5), self.5.generated(size, m5, s1)]
            {
                &&& self.0.generated(size, s0, m1)
                &&& self.1.generated(size, m1, m2)
                &&& self.2.generated(size, m2, m3)
                &&& self.3.generated(size, m3, m4)
                &&& self.4.generated(size, m4, m5)
                &&& self.5.generated(size, m5, s1)
            }
    }

    fn arbitrary(size: u64, g: &mut Gen) -> (r: (A, B, C, D, E, F)) {
        let ghost t0 = g.state();
        let a: A = arbitrary(size, g);
        let ghost t1 = g.state();
        let b: B = arbitrary(size, g);
        let ghost t2 = g.state();
        let c: C = arbitrary(size, g);
        let ghost t3 = g.state();
        let d: D = arbitrary(size, g);
        let ghost t4 = g.state();
        let e: E = arbitrary(size, g);
        let ghost t5 = g.state();
        let f: F = arbitrary(size, g);
        let r = (a, b, c, d, e, f);
        assert({
            &&& r.0.generated(size, t0, t1)
            &&& r.1.generated(size, t1, t2)
            &&& r.2.generated(size, t2, t3)
            &&& r.3.generated(size, t3, t4)
            &&& r.4.generated(size, t4, t5)
            &&& r.5.generated(size, t5, g.state())
        });
        r
    }
}

impl<A: Arbitrary, B: Arbitrary, C: Arbitrary, D: Arbitrary, E: Arbitrary, F: Arbitrary, H: Arbitrary> Arbitrary for (A, B, C, D, E, F, H) {
    open spec fn within(&self, size: nat) -> bool {
        self.0.within(size) && self.1.within(size) && self.2.within(size) && self.3.within(size) && self.4.within(size) && self.5.within(size) && self.6.within(size)
    }

    /// The components are generated in order, each from the state the
    /// previous one left.
    open spec fn generated(&self, size: u64, s0: u64, s1: u64) -> bool {
        exists|m1: u64, m2: u64, m3: u64, m4: u64, m5: u64, m6: u64|
            #![trigger self.0.generated(size, s0, m1), self.1.generated(size, m1, m2), self.2.generated(size, m2, m3), self.3.generated(size, m3, m4), self.4.generated(size, m4, m5), self.5.generated(size, m5, m6), self.6.generated(size, m6, s1)]
            {
                &&& self.0.generated(size, s0, m1)
                &&& self.1.generated(size, m1, m2)
                &&& self.2.generated(size, m2, m3)
                &&& self.3.generated(size, m3, m4)
                &&& self.4.generated(size, m4, m5)
                &&& self.5.generated(size, m5, m6)
                &&& self.6.generated(size, m6, s1)
            }
    }

    fn arbitrary(size: u64, g: &mut Gen) -> (r: (A, B, C, D, E, F, H)) {
        let ghost t0 = g.state();
        let a: A = arbitrary(size, g);
        let ghost t1 = g.state();
        let b: B = arbitrary(size, g);
        let ghost t2 = g.state();
        let c: C = arbitrary(size, g);
        let ghost t3 = g.state();
        let d: D = arbitrary(size, g);
        let ghost t4 = g.state();
        let e: E = arbitrary(size, g);
        let ghost t5 = g.state();
        let f: F = arbitrary(size, g);
        let ghost t6 = g.state();
        let h: H = arbitrary(size, g);
        let r = (a, b, c, d, e, f, h);
        assert({
            &&& r.0.generated(size, t0, t1)
            &&& r.1.generated(size, t1, t2)
            &&& r.2.generated(size, t2, t3)
            &&& r.3.generated(size, t3, t4)
            &&& r.4.generated(size, t4, t5)
            &&& r.5.generated(size, t5, t6)
            &&& r.6.generated(size, t6, g.state())
        });
        r
    }
}

impl<A: Arbitrary, B: Arbitrary, C: Arbitrary, D: Arbitrary, E: Arbitrary, F: Arbitrary, H: Arbitrary, I: Arbitrary> Arbitrary for (A, B, C, D, E, F, H, I) {
    open spec fn within(&self, size: nat) -> bool {
        self.0.within(size) && self.1.within(size) && self.2.within(size) && self.3.within(size) && self.4.within(size) && self.5.within(size) && self.6.within(size) && self.7.within(size)
    }

    /// The components are generated in order, each from the state the
    /// previous one left.
    open spec fn generated(&self, size: u64, s0: u64, s1: u64) -> bool {
        exists|m1: u64, m2: u64, m3: u64, m4: u64, m5: u64, m6: u64, m7: u64|
            #![trigger self.0.generated(size, s0, m1), self.1.generated(size, m1, m2), self.2.generated(size, m2, m3), self.3.generated(size, m3, m4), self.4.generated(size, m4, m5), self.5.generated(size, m5, m6), self.6.generated(size, m6, m7), self.7.generated(size, m7, s1)]
            {
                &&& self.0.generated(size, s0, m1)
                &&& self.1.generated(size, m1, m2)
                &&& self.2.generated(size, m2, m3)
                &&& self.3.generated(size, m3, m4)
                &&& self.4.generated(size, m4, m5)
                &&& self.5.generated(size, m5, m6)
                &&& self.6.generated(size, m6, m7)
                &&& self.7.generated(size, m7, s1)
            }
    }

    fn arbitrary(size: u64, g: &mut Gen) -> (r: (A, B, C, D, E, F, H, I)) {
        let ghost t0 = g.state();
        let a: A = arbitrary(size, g);
        let ghost t1 = g.state();
        let b: B = arbitrary(size, g);
        let ghost t2 = g.state();
        let c: C = arbitrary(size, g);
        let ghost t3 = g.state();
        let d: D = arbitrary(size, g);
        let ghost t4 = g.state();
        let e: E = arbitrary(size, g);
        let ghost t5 = g.state();
        let f: F = arbitrary(size, g);
        let ghost t6 = g.state();
        let h: H = arbitrary(size, g);
        let ghost t7 = g.state();
        let i: I = arbitrary(size, g);
        let r = (a, b, c, d, e, f, h, i);
        assert({
            &&& r.0.generated(size, t0, t1)
            &&& r.1.generated(size, t1, t2)
            &&& r.2.generated(size, t2, t3)
            &&& r.3.generated(size, t3, t4)
            &&& r.4.generated(size, t4, t5)
            &&& r.5.generated(size, t5, t6)
            &&& r.6.generated(size, t6, t7)
            &&& r.7.generated(size, t7, g.state())
        });
        r
    }
}

impl<K: Arbitrary + Eq + Hash> Arbitrary for HashSet<K> {
    /// Where the keys hash and compare as their values do, at most as many
    /// keys as `Vec` would hold elements.
    open spec fn within(&self, size: nat) -> bool {
        obeys_key_model::<K>() ==> self@.finite() && self@.len() <= SMALL_N_FACTOR * size
    }

    /// A small number of arbitrary keys; repeated keys are kept once.
    fn arbitrary(size: u64, g: &mut Gen) -> (r: HashSet<K>) {
        let mut it = arbiter(size, g);
        let ghost total = it.count();
        let mut set: HashSet<K> = HashSet::new();
        while it.count > 0
            invariant
                it.size() == size,
                total <= SMALL_N_FACTOR * size,
                it.count() <= total,
                obeys_key_model::<K>() ==> set@.finite() && set@.len() + it.count() <= total,
            decreases it.count(),
        {
            let x: Option<K> = it.next(g);
            match x {
                Some(k) => {
                    set.insert(k);
                },
                None => {},
            }
        }
        set
    }
}

impl<K: Arbitrary + Eq + Hash, V: Arbitrary> Arbitrary for HashMap<K, V> {
    /// Where the keys hash and compare as their values do, at most as many
    /// entries as `Vec` would hold elements.
    open spec fn within(&self, size: nat) -> bool {
        obeys_key_model::<K>() ==> self@.dom().finite() && self@.dom().len() <= SMALL_N_FACTOR
            * size
    }

    /// A small number of arbitrary entries; of entries with equal keys the
    /// last one stays.
    fn arbitrary(size: u64, g: &mut Gen) -> (r: HashMap<K, V>) {
        let mut it = arbiter(size, g);
        let ghost total = it.count();
        let mut map: HashMap<K, V> = HashMap::new();
        while it.count > 0
            invariant
                it.size() == size,
                total <= SMALL_N_FACTOR * size,
                it.count() <= total,
                obeys_key_model::<K>() ==> map@.dom().finite() && map@.dom().len() + it.count()
                    <= total,
            decreases it.count(),
        {
            let x: Option<(K, V)> = it.next(g);
            match x {
                Some((k, v)) => {
                    map.insert(k, v);
                },
                None => {},
            }
        }
        map
    }
}

} // verus!
