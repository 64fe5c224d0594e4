use vstd::prelude::*;

verus! {

/// A half-open range `[start, end)` walked by a fixed step.
pub struct StepRangeInt {
    start: usize,
    end: usize,
    step: usize,
}

/// The values that a range `[start, end)` with a positive step `step` yields
/// (with a zero step only the first is listed).
pub open spec fn step_values(start: int, end: int, step: int) -> Seq<int>
    decreases (if end > start { end - start } else { 0 }),
{
    if start < end && step > 0 {
        seq![start] + step_values(start + step, end, step)
    } else if start < end {
        seq![start]
    } else {
        Seq::empty()
    }
}

impl StepRangeInt {
    pub fn new(start: usize, end: usize, step: usize) -> (r: StepRangeInt)
        ensures
            r.start_value() == start,
            r.end_value() == end,
            r.step_value() == step,
    {
        StepRangeInt { start, end, step }
    }

    pub closed spec fn start_value(&self) -> usize {
        self.start
    }

    pub closed spec fn end_value(&self) -> usize {
        self.end
    }

    pub closed spec fn step_value(&self) -> usize {
        self.step
    }

    /// Yields the current start and moves it forward by the step; `None`
    /// once the start has reached the end.
    pub fn next(&mut self) -> (r: Option<usize>)
        requires
            old(self).start_value() < old(self).end_value() ==> old(self).start_value()
                + old(self).step_value() <= usize::MAX,
        ensures
            old(self).start_value() < old(self).end_value() ==> r == Some(old(self).start_value())
                && final(self).start_value() == old(self).start_value() + old(self).step_value(),
            old(self).start_value() >= old(self).end_value() ==> r is None && *final(self)
                == *old(self),
            final(self).end_value() == old(self).end_value(),
            final(self).step_value() == old(self).step_value(),
    {
        if self.start < self.end {
            let v = self.start;
            self.start = v + self.step;
            Some(v)
        } else {
            None
        }
    }

    /// All the values that the range yields, in order.
    pub fn to_vec(&self) -> (r: Vec<usize>)
        requires
            self.step_value() > 0,
            self.end_value() + self.step_value() <= usize::MAX,
        ensures
            r@.map_values(|v: usize| v as int) == step_values(
                self.start_value() as int,
                self.end_value() as int,
                self.step_value() as int,
            ),
    {
        let mut out: Vec<usize> = Vec::new();
        let mut cur = StepRangeInt { start: self.start, end: self.end, step: self.step };
        while cur.start < cur.end
            invariant
                cur.end == self.end,
                cur.step == self.step,
                self.step > 0,
                self.end + self.step <= usize::MAX,
                out@.map_values(|v: usize| v as int) + step_values(
                    cur.start as int,
                    cur.end as int,
                    cur.step as int,
                ) == step_values(self.start as int, self.end as int, self.step as int),
            decreases (if cur.end > cur.start { cur.end - cur.start } else { 0 }),
        {
            let ghost prev = out@;
            let ghost s0 = cur.start as int;
            let v = cur.next();
            let v = v.unwrap();
            out.push(v);
            proof {
                assert(step_values(s0, cur.end as int, cur.step as int) == seq![s0]
                    + step_values(cur.start as int, cur.end as int, cur.step as int));
                assert(out@.map_values(|v: usize| v as int) =~= prev.map_values(|v: usize| v as int)
                    + seq![s0]);
            }
        }
        assert(out@.map_values(|v: usize| v as int) + Seq::<int>::empty() =~= out@.map_values(|v: usize| v as int));
        out
    }
}

/// Remainder of a division by a positive divisor, never negative: it lies in
/// `[0, n)` whatever the sign of the dividend.
pub trait ModuloSignedExt: Sized {
    /// Whether `self.modulo(n)` is defined.
    spec fn modulo_defined(&self, n: Self) -> bool;

    /// The value of `self.modulo(n)`.
    spec fn modulo_value(&self, n: Self) -> Self;

    fn modulo(&self, n: Self) -> (r: Self)
        requires
            self.modulo_defined(n),
        ensures
            r == self.modulo_value(n),
    ;
}

impl ModuloSignedExt for i64 {
    open spec fn modulo_defined(&self, n: i64) -> bool {
        n > 0
    }

    /// The Euclidean remainder: in `[0, n)` and congruent to `self`.
    open spec fn modulo_value(&self, n: i64) -> i64 {
        ((*self as int) % (n as int)) as i64
    }

    fn modulo(&self, n: i64) -> (r: i64) {
        let a = *self;
        if a >= 0 {
            a % n
        } else {
            let b = -(a + 1);
            let p = b % n;
            proof {
                lemma_negative_rem(a as int, n as int, b as int, p as int);
            }
            n - 1 - p
        }
    }
}

proof fn lemma_negative_rem(a: int, n: int, b: int, p: int)
    requires
        n > 0,
        a < 0,
        b == -(a + 1),
        p == b % n,
    ensures
        a % n == n - 1 - p,
{
    let q = b / n;
    vstd::arithmetic::div_mod::lemma_fundamental_div_mod(b, n);
    assert(a == -(q + 1) * n + (n - 1 - p)) by (nonlinear_arith)
        requires
            b == n * q + p,
            a == -(b + 1),
    ;
    vstd::arithmetic::div_mod::lemma_mod_pos_bound(b, n);
    vstd::arithmetic::div_mod::lemma_fundamental_div_mod_converse(a, n, -(q + 1), n - 1 - p);
}

} // verus!
