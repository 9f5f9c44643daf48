//! Following sector chains through an allocation table.
use vstd::prelude::*;
use crate::{CfbError, ENDOFCHAIN};

verus! {

/// `r` and `s` agree: the same error, or `Ok` with the same contents.
pub open spec fn agrees<T>(r: Result<Vec<T>, CfbError>, s: Result<Seq<T>, CfbError>) -> bool {
    match s {
        Ok(v) => r matches Ok(w) && w@ == v,
        Err(e) => r == Err::<Vec<T>, CfbError>(e),
    }
}

/// The chain that starts at `cur` in table `t`, taking at most `fuel` steps:
/// the sector ids visited before `ENDOFCHAIN`. It fails when an id leaves the
/// table or the steps run out, which is what a cycle leads to.
pub open spec fn chain_from(t: Seq<u32>, cur: u32, fuel: nat) -> Result<Seq<u32>, CfbError>
    decreases fuel,
{
    if cur == ENDOFCHAIN {
        Ok(seq![])
    } else if fuel == 0 || cur as int >= t.len() {
        Err(CfbError::CorruptChain)
    } else {
        match chain_from(t, t[cur as int], (fuel - 1) as nat) {
            Ok(r) => Ok(seq![cur] + r),
            Err(e) => Err(e),
        }
    }
}

/// The chain from `start`, at most `limit` sectors long (the number of
/// sectors that exist to be chained).
pub open spec fn spec_walk(t: Seq<u32>, start: u32, limit: nat) -> Result<Seq<u32>, CfbError> {
    chain_from(t, start, limit)
}

pub open spec fn prepend(p: Seq<u32>, o: Result<Seq<u32>, CfbError>) -> Result<Seq<u32>, CfbError> {
    match o {
        Ok(r) => Ok(p + r),
        Err(e) => Err(e),
    }
}

/// Follows the chain that starts at `start` through table `t` up to `ENDOFCHAIN`.
/// Takes at most `limit` steps, so a cycle, or a chain longer than the
/// sectors there are, ends in `CorruptChain`.
pub fn walk(t: &Vec<u32>, start: u32, limit: usize) -> (r: Result<Vec<u32>, CfbError>)
    ensures
        agrees(r, spec_walk(t@, start, limit as nat)),
{
    let mut out: Vec<u32> = Vec::new();
    let mut cur = start;
    let mut fuel = limit;
    while cur != ENDOFCHAIN
        invariant
            fuel <= limit,
            spec_walk(t@, start, limit as nat) == prepend(out@, chain_from(t@, cur, fuel as nat)),
        decreases fuel,
    {
        if fuel == 0 || cur as usize >= t.len() {
            return Err(CfbError::CorruptChain);
        }
        let next = t[cur as usize];
        proof {
            let old_out = out@;
            match chain_from(t@, next, (fuel - 1) as nat) {
                Ok(r) => {
                    assert(old_out + (seq![cur] + r) =~= old_out.push(cur) + r);
                },
                Err(e) => {},
            }
        }
        out.push(cur);
        cur = next;
        fuel = fuel - 1;
    }
    assert(out@ + seq![] =~= out@);
    Ok(out)
}

/// A chain that steps from `a` to `b` and from `b` back to `a` never ends:
/// whatever the step budget, following it fails.
pub proof fn lemma_two_cycle_fails(t: Seq<u32>, a: u32, b: u32, fuel: nat)
    requires
        (a as int) < t.len(),
        (b as int) < t.len(),
        a != ENDOFCHAIN,
        b != ENDOFCHAIN,
        t[a as int] == b,
        t[b as int] == a,
    ensures
        chain_from(t, a, fuel) is Err,
    decreases fuel,
{
    if fuel > 0 {
        lemma_two_cycle_fails(t, b, a, (fuel - 1) as nat);
    }
}

proof fn lemma_chain_deterministic(t: Seq<u32>, x: u32, f1: nat, f2: nat)
    requires
        chain_from(t, x, f1) is Ok,
        chain_from(t, x, f2) is Ok,
    ensures
        chain_from(t, x, f1) == chain_from(t, x, f2),
    decreases f1,
{
    if x != ENDOFCHAIN {
        lemma_chain_deterministic(t, t[x as int], (f1 - 1) as nat, (f2 - 1) as nat);
    }
}

proof fn lemma_chain_suffix(t: Seq<u32>, x: u32, f: nat, i: int)
    requires
        chain_from(t, x, f) matches Ok(c) && 0 <= i < c.len(),
    ensures
        i <= f,
        chain_from(t, x, f) matches Ok(c) && chain_from(t, c[i], (f - i) as nat) == Ok::<
            Seq<u32>,
            CfbError,
        >(c.subrange(i, c.len() as int)),
    decreases f,
{
    let c = chain_from(t, x, f)->Ok_0;
    if i == 0 {
        assert(c.subrange(0, c.len() as int) =~= c);
    } else {
        let r = chain_from(t, t[x as int], (f - 1) as nat)->Ok_0;
        assert(c == seq![x] + r);
        lemma_chain_suffix(t, t[x as int], (f - 1) as nat, i - 1);
        assert(r.subrange(i - 1, r.len() as int) =~= c.subrange(i, c.len() as int));
    }
}

/// A chain that `walk` completes never visits a sector twice: a repeated
/// sector would make the chain loop forever and never reach `ENDOFCHAIN`.
pub proof fn lemma_walk_no_repeats(t: Seq<u32>, start: u32, limit: nat)
    ensures
        spec_walk(t, start, limit) matches Ok(c) ==> c.no_duplicates() && c.len() <= limit,
{
    if spec_walk(t, start, limit) is Ok {
        let c = spec_walk(t, start, limit)->Ok_0;
        let f = limit;
        if c.len() > 0 {
            lemma_chain_suffix(t, start, f, c.len() - 1);
        }
        assert forall|i: int, j: int| 0 <= i < c.len() && 0 <= j < c.len() && i != j implies c[i]
            != c[j] by {
            if c[i] == c[j] {
                lemma_chain_suffix(t, start, f, i);
                lemma_chain_suffix(t, start, f, j);
                lemma_chain_deterministic(t, c[i], (f - i) as nat, (f - j) as nat);
                assert(c.subrange(i, c.len() as int).len() != c.subrange(j, c.len() as int).len());
            }
        }
    }
}

} // verus!
