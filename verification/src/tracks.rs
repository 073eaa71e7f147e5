//! Moving between the loaded tracks: their order in blind comparisons, the
//! track that a key switches to, and where the crossfade of a switch lies.

use vstd::prelude::*;

verus! {

/// `v` with the entries at `i` and `j` exchanged.
pub open spec fn swapped(v: Seq<usize>, i: int, j: int) -> Seq<usize> {
    v.update(i, v[j]).update(j, v[i])
}

/// The Fisher-Yates steps for positions `k - 1` down to `1`: position `i`
/// trades places with position `random[i] % (i + 1)`.
pub open spec fn shuffle_steps(v: Seq<usize>, random: Seq<u64>, k: nat) -> Seq<usize>
    decreases k,
{
    if k <= 1 {
        v
    } else {
        let i = (k - 1) as nat;
        shuffle_steps(swapped(v, i as int, (random[i as int] % (k as u64)) as int), random, i)
    }
}

/// `0, 1, ..., n - 1`.
pub open spec fn identity_order(n: nat) -> Seq<usize> {
    Seq::new(n, |i: int| i as usize)
}

/// Every entry of `v` is below `v.len()` and no two are equal: `v` orders
/// `0..v.len()`.
pub open spec fn is_permutation(v: Seq<usize>) -> bool {
    &&& forall|i: int| 0 <= i < v.len() ==> #[trigger] v[i] < v.len()
    &&& forall|i: int, j: int| 0 <= i < v.len() && 0 <= j < v.len() && i != j ==> v[i] != v[j]
}

/// The shuffle steps below position `k` leave every position from `k` on as
/// it was.
proof fn lemma_steps_keep_upper(v: Seq<usize>, random: Seq<u64>, k: nat, j: int)
    requires
        k <= v.len(),
        k <= random.len(),
        k <= u64::MAX,
        k <= j < v.len(),
    ensures
        shuffle_steps(v, random, k).len() == v.len(),
        shuffle_steps(v, random, k)[j] == v[j],
    decreases k,
{
    if k > 1 {
        let i = (k - 1) as nat;
        assert((k as u64) as nat == k);
        let p = (random[i as int] % (k as u64)) as int;
        let w = swapped(v, i as int, p);
        assert(p < k);
        assert(w.len() == v.len());
        lemma_steps_keep_upper(w, random, i, j);
        lemma_steps_keep_upper(w, random, i, i as int);
    }
}

/// In the shuffled order of `n >= 1` tracks, the last slot holds the track
/// that the last random number picks: `random[n - 1] % n`. So every track
/// can end up in that slot, whatever the other random numbers are.
pub proof fn lemma_last_slot(n: nat, random: Seq<u64>)
    requires
        1 <= n <= usize::MAX,
        n <= u64::MAX,
        random.len() >= n,
    ensures
        shuffle_steps(identity_order(n), random, n).len() == n,
        shuffle_steps(identity_order(n), random, n)[n - 1] as int == (random[n - 1] as int) % (n as int),
{
    let id = identity_order(n);
    if n == 1 {
        assert(shuffle_steps(id, random, 1) == id);
        assert((random[0] as int) % 1 == 0);
    } else {
        let i = (n - 1) as nat;
        assert((n as u64) as nat == n);
        let p = (random[i as int] % (n as u64)) as int;
        assert(id.len() == n);
        assert(0 <= p < n);
        let w = swapped(id, i as int, p);
        assert(w.len() == n);
        assert(shuffle_steps(id, random, n) == shuffle_steps(w, random, i));
        lemma_steps_keep_upper(w, random, i, i as int);
        assert(w[i as int] == id[p]);
        assert(id[p] as int == p);
        assert(p == (random[n - 1] as int) % (n as int));
    }
}

/// The playback order of `n` tracks in anonymous mode: the Fisher-Yates
/// shuffle of `0..n` driven by `random` (entry `i` picks the partner of
/// position `i`).
pub fn shuffled_order(n: usize, random: &Vec<u64>) -> (order: Vec<usize>)
    requires
        random@.len() >= n,
    ensures
        order@ == shuffle_steps(identity_order(n as nat), random@, n as nat),
        order@.len() == n,
        is_permutation(order@),
        n >= 1 ==> order@[n - 1] as int == (random@[n - 1] as int) % (n as int),
{
    let mut order: Vec<usize> = Vec::new();
    let mut k: usize = 0;
    while k < n
        invariant
            k <= n,
            order@ == identity_order(k as nat),
        decreases n - k,
    {
        order.push(k);
        k = k + 1;
        assert(order@ =~= identity_order(k as nat));
    }
    let mut i: usize = n;
    while i > 1
        invariant
            i <= n,
            random@.len() >= n,
            order@.len() == n,
            is_permutation(order@),
            shuffle_steps(order@, random@, i as nat) == shuffle_steps(identity_order(n as nat), random@, n as nat),
        decreases i,
    {
        let pos: usize = i - 1;
        let partner: usize = (random[pos] % (i as u64)) as usize;
        let ghost before = order@;
        let a = order[pos];
        let b = order[partner];
        order.set(pos, b);
        order.set(partner, a);
        assert(order@ =~= swapped(before, pos as int, partner as int));
        assert forall|x: int, y: int| 0 <= x < n && 0 <= y < n && x != y implies order@[x] != order@[y] by {
            let sx = if x == pos { partner as int } else if x == partner { pos as int } else { x };
            let sy = if y == pos { partner as int } else if y == partner { pos as int } else { y };
            assert(order@[x] == before[sx]);
            assert(order@[y] == before[sy]);
        }
        assert forall|x: int| 0 <= x < n implies #[trigger] order@[x] < n by {
            let sx = if x == pos { partner as int } else if x == partner { pos as int } else { x };
            assert(order@[x] == before[sx]);
        }
        i = pos;
    }
    proof {
        if n >= 1 {
            lemma_last_slot(n as nat, random@);
        }
    }
    order
}

/// The track after `current`, wrapping around to the first.
pub fn next_track(current: usize, count: usize) -> (t: usize)
    requires
        current < count,
    ensures
        t == (current + 1) % (count as int),
        t < count,
{
    if current + 1 == count {
        proof {
            vstd::arithmetic::div_mod::lemma_mod_self_0(count as int);
        }
        0
    } else {
        proof {
            vstd::arithmetic::div_mod::lemma_small_mod((current + 1) as nat, count as nat);
        }
        current + 1
    }
}

/// The track before `current`, wrapping around to the last.
pub fn previous_track(current: usize, count: usize) -> (t: usize)
    requires
        current < count,
    ensures
        t == (current + count - 1) % (count as int),
        t < count,
{
    if current == 0 {
        proof {
            vstd::arithmetic::div_mod::lemma_small_mod((count - 1) as nat, count as nat);
        }
        count - 1
    } else {
        proof {
            vstd::arithmetic::div_mod::lemma_fundamental_div_mod_converse(
                current + count - 1, count as int, 1, current - 1);
        }
        current - 1
    }
}

/// A track picked by `random` among the others: `current` moves on by
/// `1 + random % (count - 1)` places, wrapping around; with one track there
/// is no other, and it stays.
pub fn random_track(current: usize, count: usize, random: u64) -> (t: usize)
    requires
        current < count,
    ensures
        t < count,
        count == 1 ==> t == current,
        count > 1 ==> t == (current + 1 + (random as int) % ((count - 1) as int)) % (count as int),
        count > 1 ==> t != current,
{
    if count == 1 {
        return current;
    }
    let others: u64 = (count - 1) as u64;
    let step: usize = (random % others) as usize + 1;
    let rest: usize = count - current;
    assert(step == (random as int) % ((count - 1) as int) + 1);
    if step < rest {
        proof {
            vstd::arithmetic::div_mod::lemma_small_mod((current + step) as nat, count as nat);
        }
        current + step
    } else {
        proof {
            vstd::arithmetic::div_mod::lemma_fundamental_div_mod_converse(
                current + step, count as int, 1, step - rest);
        }
        step - rest
    }
}

/// The samples of the outgoing track that keep playing alone after a
/// switch, before the crossfade begins.
pub const PREFADE_SAMPLES: usize = 128;

/// Where a switch between tracks blends them, in interleaved samples of the
/// incoming track: the outgoing track alone in `position..fade_start`, both
/// (fading from the outgoing to the incoming one) in `fade_start..fade_end`,
/// and the incoming track alone after that.
#[derive(Debug, Clone, Copy, PartialEq, Eq, Structural)]
pub struct CrossfadeWindow {
    pub position: usize,
    pub fade_start: usize,
    pub fade_end: usize,
}

/// `n` rounded down to whole frames.
pub open spec fn whole_frames(n: int, channels: int) -> int {
    n - n % channels
}

/// The smaller of two numbers.
pub open spec fn smaller(a: int, b: int) -> int {
    if a < b { a } else { b }
}

/// The crossfade of a switch at `position`: `prefade` samples of the
/// outgoing track alone, then `fade` samples of blend, both rounded down to
/// whole frames and kept within both tracks (the position too).
pub open spec fn spec_crossfade(
    position: int,
    prefade: int,
    fade: int,
    outgoing_len: int,
    incoming_len: int,
    channels: int,
) -> CrossfadeWindow {
    let limit = smaller(outgoing_len, incoming_len);
    let start = smaller(position, limit);
    let fade_start = smaller(start + whole_frames(prefade, channels), limit);
    let fade_end = smaller(fade_start + whole_frames(fade, channels), limit);
    CrossfadeWindow { position: start as usize, fade_start: fade_start as usize, fade_end: fade_end as usize }
}

/// Where both tracks are long enough, a switch at `position` keeps the
/// outgoing track alone for exactly `prefade` samples and blends for exactly
/// `fade` samples, each rounded down to whole frames; where they are not,
/// the window ends with the shorter track.
pub proof fn lemma_crossfade_lengths(
    position: int,
    prefade: int,
    fade: int,
    outgoing_len: int,
    incoming_len: int,
    channels: int,
)
    requires
        0 <= position,
        0 <= prefade,
        0 <= fade,
        0 <= outgoing_len <= usize::MAX,
        0 <= incoming_len <= usize::MAX,
        channels > 0,
    ensures
        ({
            let w = spec_crossfade(position, prefade, fade, outgoing_len, incoming_len, channels);
            &&& position + (prefade - prefade % channels) + (fade - fade % channels) <= outgoing_len
                && position + (prefade - prefade % channels) + (fade - fade % channels) <= incoming_len
                ==> {
                &&& w.position == position
                &&& w.fade_start - w.position == prefade - prefade % channels
                &&& w.fade_end - w.fade_start == fade - fade % channels
            }
            &&& w.position <= w.fade_start <= w.fade_end
            &&& w.fade_end <= outgoing_len
            &&& w.fade_end <= incoming_len
        }),
{
    vstd::arithmetic::div_mod::lemma_mod_bound(prefade, channels);
    vstd::arithmetic::div_mod::lemma_mod_bound(fade, channels);
    vstd::arithmetic::div_mod::lemma_mod_decreases(prefade as nat, channels as nat);
    vstd::arithmetic::div_mod::lemma_mod_decreases(fade as nat, channels as nat);
}

/// The crossfade of a switch between two tracks at `position`.
pub fn crossfade_window(
    position: usize,
    prefade: usize,
    fade: usize,
    outgoing_len: usize,
    incoming_len: usize,
    channels: usize,
) -> (w: CrossfadeWindow)
    requires
        channels > 0,
    ensures
        w == spec_crossfade(
            position as int,
            prefade as int,
            fade as int,
            outgoing_len as int,
            incoming_len as int,
            channels as int,
        ),
        w.position <= w.fade_start <= w.fade_end <= outgoing_len,
        w.fade_end <= incoming_len,
        position + (prefade - prefade % channels) + (fade - fade % channels) <= outgoing_len
            && position + (prefade - prefade % channels) + (fade - fade % channels) <= incoming_len ==> {
            &&& w.position == position
            &&& w.fade_start - w.position == prefade - prefade % channels
            &&& w.fade_end - w.fade_start == fade - fade % channels
        },
{
    let limit: usize = if outgoing_len < incoming_len { outgoing_len } else { incoming_len };
    let start: usize = if position < limit { position } else { limit };
    proof {
        vstd::arithmetic::div_mod::lemma_mod_decreases(prefade as nat, channels as nat);
        vstd::arithmetic::div_mod::lemma_mod_decreases(fade as nat, channels as nat);
    }
    let pre: usize = prefade - prefade % channels;
    let blend: usize = fade - fade % channels;
    let fade_start: usize = if pre < limit - start { start + pre } else { limit };
    let fade_end: usize = if blend < limit - fade_start { fade_start + blend } else { limit };
    CrossfadeWindow { position: start, fade_start, fade_end }
}

} // verus!
