//! A deterministic, infinite walk over IPv4 addresses.
//!
//! A [`Scruffy`] holds one offset per octet and a current address, which
//! starts at `0.0.0.0`. Each step adds the offsets to the octets from the
//! least significant one leftwards, reducing every touched octet modulo 255,
//! and carries into the next octet only while the widened sum exceeds 255.
use rand::Rng;
use vstd::prelude::*;

verus! {

/// Exclusive upper bound of a randomly drawn offset: the largest `u16` less 255.
pub const MAX_OCTET_OFFSET: u16 = 65535 - 255;

/// The address every walker starts from, `0.0.0.0`.
pub open spec fn origin() -> Seq<u8> {
    seq![0u8, 0u8, 0u8, 0u8]
}

/// An offset that the random sampler may hand out: drawn from
/// `1..MAX_OCTET_OFFSET` and not a divisor of 255.
pub open spec fn is_valid_offset(v: u16) -> bool {
    1 <= v < MAX_OCTET_OFFSET && 255int % (v as int) != 0
}

/// Applies the offsets to the first `n` octets from the rightmost of them
/// leftwards: each touched octet becomes `(octet + offset) % 255`, and the
/// walk goes on to the next position only while `octet + offset` exceeds 255.
pub open spec fn carry_from(offsets: Seq<u16>, octets: Seq<u8>, n: nat) -> Seq<u8>
    decreases n,
{
    if n == 0 {
        octets
    } else {
        let i = n - 1;
        let widened = octets[i] + offsets[i];
        let updated = octets.update(i, (widened % 255) as u8);
        if widened <= 255 {
            updated
        } else {
            carry_from(offsets, updated, (n - 1) as nat)
        }
    }
}

/// One step of the walk: the offsets applied from the least significant octet.
pub open spec fn advance(offsets: Seq<u16>, octets: Seq<u8>) -> Seq<u8> {
    carry_from(offsets, octets, 4)
}

/// The address reached from `start` after `n` steps.
pub open spec fn advance_n(offsets: Seq<u16>, start: Seq<u8>, n: nat) -> Seq<u8>
    decreases n,
{
    if n == 0 {
        start
    } else {
        advance(offsets, advance_n(offsets, start, (n - 1) as nat))
    }
}

/// The `n` addresses produced by `n` steps from `start`, in order.
pub open spec fn walk(offsets: Seq<u16>, start: Seq<u8>, n: nat) -> Seq<Seq<u8>> {
    Seq::new(n, |i: int| advance_n(offsets, start, (i + 1) as nat))
}

/// Walking `m + k` steps is walking `m` steps and then `k` more.
pub proof fn lemma_advance_n_split(offsets: Seq<u16>, start: Seq<u8>, m: nat, k: nat)
    ensures
        advance_n(offsets, start, m + k) == advance_n(offsets, advance_n(offsets, start, m), k),
    decreases k,
{
    if k > 0 {
        lemma_advance_n_split(offsets, start, m, (k - 1) as nat);
        assert((m + k - 1) as nat == m + (k - 1) as nat);
    }
}

/// The walk is determined by the offsets and the starting address alone: the
/// addresses of `m + k` steps are those of the first `m` steps followed by
/// those of `k` steps from where the first `m` ended, however the steps are
/// taken. Two walkers built from the same offsets start at the same address,
/// so they produce the same sequence.
pub proof fn lemma_walk_deterministic(offsets: Seq<u16>, start: Seq<u8>, m: nat, k: nat)
    ensures
        walk(offsets, start, m + k) == walk(offsets, start, m) + walk(
            offsets,
            advance_n(offsets, start, m),
            k,
        ),
{
    let mid = advance_n(offsets, start, m);
    assert forall|i: int| m <= i < m + k implies #[trigger] advance_n(offsets, start, (i + 1) as nat)
        == advance_n(offsets, mid, (i - m + 1) as nat) by {
        lemma_advance_n_split(offsets, start, m, (i - m + 1) as nat);
        assert(m + (i - m + 1) as nat == (i + 1) as nat);
    }
    assert(walk(offsets, start, m + k) =~= walk(offsets, start, m) + walk(offsets, mid, k));
}

/// Relies on rand's `thread_rng().gen_range(low, high)`, which draws a value
/// from `low..high` and panics unless `low < high`.
#[verifier::external_body]
fn random_in_range(low: u16, high: u16) -> (r: u16)
    requires
        low < high,
    ensures
        low <= r < high,
{
    rand::thread_rng().gen_range(low, high)
}

/// A walker over IPv4 addresses, driven by one offset per octet.
pub struct Scruffy {
    octets_offsets: [u16; 4],
    current_ip: [u8; 4],
}

impl Scruffy {
    /// The offsets, most significant octet first.
    pub closed spec fn offsets(&self) -> Seq<u16> {
        self.octets_offsets@
    }

    /// The current address, most significant octet first.
    pub closed spec fn current(&self) -> Seq<u8> {
        self.current_ip@
    }

    /// Every walker holds four offsets and an address of four octets.
    pub proof fn lemma_wf(&self)
        ensures
            self.offsets().len() == 4,
            self.current().len() == 4,
    {
    }

    /// Constructs a walker with the given offsets, starting at `0.0.0.0`.
    pub fn new(octets_offsets: [u16; 4]) -> (r: Scruffy)
        ensures
            r.offsets() == octets_offsets@,
            r.current() == origin(),
    {
        let r = Scruffy { octets_offsets, current_ip: [0u8, 0u8, 0u8, 0u8] };
        assert(r.current_ip@ =~= origin());
        r
    }

    /// Constructs a walker with random offsets, one drawn for each octet by
    /// [`Scruffy::get_rand_offset`], starting at `0.0.0.0`.
    pub fn new_rand() -> (r: Scruffy)
        ensures
            r.offsets().len() == 4,
            forall|i: int| 0 <= i < 4 ==> is_valid_offset(#[trigger] r.offsets()[i]),
            r.current() == origin(),
    {
        let o0 = Scruffy::get_rand_offset();
        let o1 = Scruffy::get_rand_offset();
        let o2 = Scruffy::get_rand_offset();
        let o3 = Scruffy::get_rand_offset();
        let r = Scruffy { octets_offsets: [o0, o1, o2, o3], current_ip: [0u8, 0u8, 0u8, 0u8] };
        assert(r.current_ip@ =~= origin());
        r
    }

    /// Decides on one drawn candidate: it is kept as an offset unless it
    /// divides 255.
    pub fn accept_offset(candidate: u16) -> (r: Option<u16>)
        requires
            1 <= candidate < MAX_OCTET_OFFSET,
        ensures
            r == (if 255int % (candidate as int) != 0 {
                Some(candidate)
            } else {
                None::<u16>
            }),
    {
        if 255 % candidate != 0 {
            Some(candidate)
        } else {
            None
        }
    }

    /// Draws one random offset: candidates are drawn from
    /// `1..MAX_OCTET_OFFSET`, each is passed to [`Scruffy::accept_offset`], and
    /// the first one accepted is returned.
    ///
    /// The loop is limited to `u64::MAX` draws so that it provably ends; only
    /// if every one of them is rejected is the smallest valid offset, 2,
    /// returned instead.
    pub fn get_rand_offset() -> (r: u16)
        ensures
            is_valid_offset(r),
    {
        let mut attempts: u64 = u64::MAX;
        while attempts > 0
            decreases attempts,
        {
            attempts = attempts - 1;
            let candidate = random_in_range(1, MAX_OCTET_OFFSET);
            if let Some(offset) = Scruffy::accept_offset(candidate) {
                return offset;
            }
        }
        2
    }

    /// The offsets this walker was built with, most significant octet first.
    pub fn get_octets_offsets(&self) -> (r: [u16; 4])
        ensures
            r@ == self.offsets(),
    {
        self.octets_offsets
    }

    /// Advances the walker by one step and returns the new address. The
    /// sequence has no end: the result is always `Some`, and a carry past the
    /// most significant octet is dropped.
    pub fn next(&mut self) -> (r: Option<[u8; 4]>)
        ensures
            final(self).offsets() == old(self).offsets(),
            final(self).current() == advance(old(self).offsets(), old(self).current()),
            r matches Some(a) && a@ == final(self).current(),
    {
        let ghost target = advance(self.offsets(), self.current());
        let mut octets = self.current_ip;
        let mut i: usize = 4;
        let mut done = false;
        while i > 0 && !done
            invariant
                i <= 4,
                done ==> octets@ == target,
                !done ==> carry_from(self.offsets(), octets@, i as nat) == target,
                self.offsets() == old(self).offsets(),
                target == advance(old(self).offsets(), old(self).current()),
            decreases i,
        {
            i = i - 1;
            let widened: u32 = octets[i] as u32 + self.octets_offsets[i] as u32;
            octets[i] = (widened % 255) as u8;
            if widened <= 255 {
                done = true;
            }
        }
        self.current_ip = octets;
        Some(octets)
    }

    /// Advances the walker by `n` steps and returns the `n` addresses produced,
    /// in order.
    pub fn next_n(&mut self, n: usize) -> (r: Vec<[u8; 4]>)
        ensures
            final(self).offsets() == old(self).offsets(),
            final(self).current() == advance_n(old(self).offsets(), old(self).current(), n as nat),
            r@.len() == n,
            forall|i: int|
                0 <= i < n ==> (#[trigger] r@[i])@ == walk(
                    old(self).offsets(),
                    old(self).current(),
                    n as nat,
                )[i],
    {
        let mut out: Vec<[u8; 4]> = Vec::new();
        let mut k: usize = 0;
        while k < n
            invariant
                k <= n,
                out@.len() == k,
                self.offsets() == old(self).offsets(),
                self.current() == advance_n(old(self).offsets(), old(self).current(), k as nat),
                forall|i: int|
                    0 <= i < k ==> (#[trigger] out@[i])@ == advance_n(
                        old(self).offsets(),
                        old(self).current(),
                        (i + 1) as nat,
                    ),
            decreases n - k,
        {
            if let Some(a) = self.next() {
                out.push(a);
            }
            k = k + 1;
        }
        out
    }
}

} // verus!
