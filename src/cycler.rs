use vstd::prelude::*;
use vstd::arithmetic::div_mod::{lemma_add_mod_noop, lemma_mod_add_multiples_vanish, lemma_mod_bound};
use crate::colour::Rgb;

verus! {

/// An endless walk round a non-empty list of colours.
pub struct Cycler {
    colours: Vec<Rgb>,
    pos: usize,
}

/// The state of a cycler: its colours and the position of the next one.
pub open spec fn cycle_wf(v: (Seq<Rgb>, nat)) -> bool {
    v.0.len() > 0 && v.1 < v.0.len()
}

/// The state after one colour is taken.
pub open spec fn advance(v: (Seq<Rgb>, nat)) -> (Seq<Rgb>, nat) {
    (v.0, ((v.1 as int + 1) % (v.0.len() as int)) as nat)
}

/// The state after `k` colours are taken.
pub open spec fn advanced(v: (Seq<Rgb>, nat), k: nat) -> (Seq<Rgb>, nat)
    decreases k,
{
    if k == 0 { v } else { advance(advanced(v, (k - 1) as nat)) }
}

/// The colour that the next call hands out in state `v`.
pub open spec fn current(v: (Seq<Rgb>, nat)) -> Rgb {
    v.0[v.1 as int]
}

/// The colour that the call numbered `k` (from 0) hands out, from state `v`.
pub open spec fn colour_at(v: (Seq<Rgb>, nat), k: nat) -> Rgb {
    v.0[(v.1 as int + k as int) % (v.0.len() as int)]
}

impl View for Cycler {
    type V = (Seq<Rgb>, nat);

    closed spec fn view(&self) -> (Seq<Rgb>, nat) {
        (self.colours@, self.pos as nat)
    }
}

impl Cycler {
    /// A cycler that starts at the first of `colours`.
    pub fn new(colours: Vec<Rgb>) -> (r: Cycler)
        requires
            colours@.len() > 0,
        ensures
            r@ == (colours@, 0nat),
            cycle_wf(r@),
    {
        Cycler { colours, pos: 0 }
    }

    /// The next colour; after the last one the walk starts again at the first.
    pub fn next(&mut self) -> (r: Rgb)
        requires
            cycle_wf(old(self)@),
        ensures
            r == current(old(self)@),
            final(self)@ == advance(old(self)@),
            cycle_wf(final(self)@),
    {
        assert(self.pos < self.colours@.len());
        let r = self.colours[self.pos];
        let n = self.colours.len();
        self.pos = if self.pos + 1 == n { 0 } else { self.pos + 1 };
        proof {
            let n = self.colours@.len() as int;
            let p = old(self)@.1 as int;
            if p + 1 == n {
                assert((p + 1) % n == 0) by { vstd::arithmetic::div_mod::lemma_mod_self_0(n); }
            } else {
                assert((p + 1) % n == p + 1) by { vstd::arithmetic::div_mod::lemma_small_mod((p + 1) as nat, n as nat); }
            }
        }
        r
    }
}

/// After `k` calls the position has moved on by `k`, round the list.
pub proof fn lemma_advanced(v: (Seq<Rgb>, nat), k: nat)
    requires
        cycle_wf(v),
    ensures
        advanced(v, k).0 == v.0,
        advanced(v, k).1 as int == (v.1 as int + k as int) % (v.0.len() as int),
        cycle_wf(advanced(v, k)),
        current(advanced(v, k)) == colour_at(v, k),
    decreases k,
{
    let n = v.0.len() as int;
    let p = v.1 as int;
    let kk = k as int;
    if k == 0 {
        vstd::arithmetic::div_mod::lemma_small_mod(v.1, n as nat);
    } else {
        lemma_advanced(v, (k - 1) as nat);
        lemma_add_mod_noop(p + kk - 1, 1, n);
        if n == 1 {
            vstd::arithmetic::div_mod::lemma_mod_self_0(n);
        } else {
            vstd::arithmetic::div_mod::lemma_small_mod(1, n as nat);
        }
        assert(((p + kk - 1) % n + 1) % n == (p + kk) % n) by {
            lemma_add_mod_noop((p + kk - 1) % n, 1, n);
            vstd::arithmetic::div_mod::lemma_mod_twice(p + kk - 1, n);
        }
        lemma_mod_bound(p + kk, n);
    }
}

/// The colours handed out repeat with the length of the list as period:
/// the call numbered `k + n` gives what the call numbered `k` gave.
pub proof fn lemma_cycle_period(v: (Seq<Rgb>, nat), k: nat)
    requires
        cycle_wf(v),
    ensures
        current(advanced(v, k + v.0.len())) == current(advanced(v, k)),
{
    let n = v.0.len() as int;
    lemma_advanced(v, k);
    lemma_advanced(v, k + v.0.len());
    lemma_mod_add_multiples_vanish(v.1 as int + k as int, n);
    assert(v.1 as int + (k + v.0.len()) as int == n + (v.1 as int + k as int));
}

} // verus!
