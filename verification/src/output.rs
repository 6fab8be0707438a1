//! What is shown on the terminal: whether events are shown at all, and the changes between
//! two reads of RAM that are shown when looking into it.
use vstd::prelude::*;

verus! {

/// Shows events only when output is allowed (never for a race ROM).
pub struct StdoutPrinter {
    allow_output: bool,
}

impl StdoutPrinter {
    pub fn new(allow_output: bool) -> (p: Self)
        ensures
            p.allows_output() == allow_output,
    {
        Self { allow_output }
    }

    pub closed spec fn allows_output(&self) -> bool {
        self.allow_output
    }

    /// Whether events are shown.
    pub fn allow_output(&self) -> (r: bool)
        ensures
            r == self.allows_output(),
    {
        self.allow_output
    }
}

/// The positions whose bytes satisfy `p`, with the byte before and after, in order.
pub open spec fn diff_where(
    lhs: Seq<u8>,
    rhs: Seq<u8>,
    p: spec_fn(u8, u8) -> bool,
) -> Seq<(usize, u8, u8)>
    decreases lhs.len(),
{
    if lhs.len() == 0 {
        Seq::empty()
    } else {
        let i = lhs.len() - 1;
        let prev = diff_where(lhs.drop_last(), rhs, p);
        if p(lhs[i], rhs[i]) {
            prev.push((i as usize, lhs[i], rhs[i]))
        } else {
            prev
        }
    }
}

pub open spec fn changed() -> spec_fn(u8, u8) -> bool {
    |a: u8, b: u8| a != b
}

/// A flag toggled: one of the two bytes is 1 and the other 0.
pub open spec fn toggled() -> spec_fn(u8, u8) -> bool {
    |a: u8, b: u8| a + b == 1
}

fn collect_diff(lhs: &[u8], rhs: &[u8], flags: bool) -> (r: Vec<(usize, u8, u8)>)
    requires
        lhs@.len() <= rhs@.len(),
    ensures
        r@ == diff_where(lhs@, rhs@, if flags { toggled() } else { changed() }),
{
    let ghost p = if flags {
        toggled()
    } else {
        changed()
    };
    let mut r: Vec<(usize, u8, u8)> = Vec::new();
    let mut i: usize = 0;
    while i < lhs.len()
        invariant
            i <= lhs@.len() <= rhs@.len(),
            p == (if flags { toggled() } else { changed() }),
            r@ == diff_where(lhs@.take(i as int), rhs@, p),
        decreases lhs@.len() - i,
    {
        proof {
            assert(lhs@.take(i + 1).drop_last() =~= lhs@.take(i as int));
            assert(lhs@.take(i + 1)[i as int] == lhs@[i as int]);
        }
        let a = lhs[i];
        let b = rhs[i];
        let hit = if flags {
            a as u32 + b as u32 == 1
        } else {
            a != b
        };
        if hit {
            r.push((i, a, b));
        }
        i = i + 1;
    }
    assert(lhs@.take(lhs@.len() as int) =~= lhs@);
    r
}

/// The positions where the bytes differ, with the byte before and after. `rhs` must be at
/// least as long as `lhs`.
pub fn verbose_diff(lhs: &[u8], rhs: &[u8]) -> (r: Vec<(usize, u8, u8)>)
    requires
        lhs@.len() <= rhs@.len(),
    ensures
        r@ == diff_where(lhs@, rhs@, changed()),
{
    collect_diff(lhs, rhs, false)
}

/// The positions where a flag was toggled (the bytes are 0 and 1, either way), with the byte
/// before and after. `rhs` must be at least as long as `lhs`.
pub fn flags_toggled(lhs: &[u8], rhs: &[u8]) -> (r: Vec<(usize, u8, u8)>)
    requires
        lhs@.len() <= rhs@.len(),
    ensures
        r@ == diff_where(lhs@, rhs@, toggled()),
{
    collect_diff(lhs, rhs, true)
}

} // verus!
