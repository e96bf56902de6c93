//! Frame cursor: the current position in the frame sequence, with
//! forward and backward seeking.
//!
//! Stepping forward applies the projector to the current frame and
//! advances, wrapping to frame 0 with a cleared registry after the last
//! frame — a match replays as a loop. Seeking backward must reproduce
//! the exact registry state of the target index, so it restores the
//! nearest checkpoint at or before the target (checkpoints are recorded
//! while stepping forward) and replays from there; it never just moves
//! the index.

use vstd::prelude::*;
use vstd::arithmetic::div_mod::{
    lemma_mod_bound, lemma_mod_multiples_vanish, lemma_small_mod, lemma_sub_mod_noop,
};

use crate::data::{Frame, FrameView};
use crate::laws::{lemma_cascade_frame, lemma_empty_wf};
use crate::projector::{apply_frame, frame_step};
use crate::registry::{empty_registry_view, wf, Registry, RegistryView};
use crate::schema::{resolve, resolve_spec, RoleMap};

verus! {

/// The frame views of a loaded frame sequence.
pub open spec fn frame_views(frames: Seq<Frame>) -> Seq<FrameView> {
    Seq::new(frames.len(), |i: int| frames[i]@)
}

/// The registry state after projecting the first `n` frames from an
/// empty registry.
pub open spec fn state_at(frames: Seq<FrameView>, roles: RoleMap, n: int) -> RegistryView
    decreases n,
{
    if n <= 0 {
        empty_registry_view()
    } else {
        frame_step(state_at(frames, roles, n - 1), roles, frames[n - 1])
    }
}

/// The index after one forward step: wraps to 0 past the last frame.
pub open spec fn advance_index(i: nat, total: nat) -> nat {
    if i + 1 >= total {
        0
    } else {
        i + 1
    }
}

/// The index after `n` forward steps.
pub open spec fn advance_index_n(i: nat, total: nat, n: nat) -> nat
    decreases n,
{
    if n == 0 {
        i
    } else {
        advance_index_n(advance_index(i, total), total, (n - 1) as nat)
    }
}

/// The index a backward seek by `k` frames lands on, with wraparound.
pub open spec fn retreat_index(i: nat, total: nat, k: nat) -> nat
    recommends
        total > 0,
        i < total,
{
    let r = k % total;
    if r <= i {
        (i - r) as nat
    } else {
        (i + total - r) as nat
    }
}

proof fn lemma_advance_snoc(i: nat, total: nat, n: nat)
    ensures
        advance_index_n(i, total, n + 1) == advance_index(advance_index_n(i, total, n), total),
    decreases n,
{
    if n == 0 {
        assert(advance_index_n(advance_index(i, total), total, 0) == advance_index(i, total));
    } else {
        lemma_advance_snoc(advance_index(i, total), total, (n - 1) as nat);
    }
}

proof fn lemma_wrap_from(i: nat, total: nat)
    requires
        i < total,
    ensures
        advance_index_n(i, total, (total - i) as nat) == 0,
    decreases total - i,
{
    if i + 1 < total {
        lemma_wrap_from((i + 1) as nat, total);
    } else {
        assert(advance_index(i, total) == 0);
        assert(advance_index_n(0, total, 0) == 0);
    }
}

/// Loop wraparound: stepping forward exactly `total` times from index 0
/// returns to index 0, where the registry is the empty one again.
pub proof fn lemma_loop_wraparound(total: nat, frames: Seq<FrameView>, roles: RoleMap)
    requires
        total > 0,
    ensures
        advance_index_n(0, total, total) == 0,
        state_at(frames, roles, 0) == empty_registry_view(),
{
    lemma_wrap_from(0, total);
}

proof fn lemma_advance_is_mod(i: nat, total: nat, n: nat)
    requires
        total > 0,
        i < total,
    ensures
        advance_index_n(i, total, n) == (i + n) % total,
    decreases n,
{
    if n == 0 {
        lemma_small_mod(i, total);
    } else {
        let j = advance_index(i, total);
        lemma_advance_is_mod(j, total, (n - 1) as nat);
        if i + 1 >= total {
            assert(j == 0);
            lemma_mod_multiples_vanish(1, n - 1, total as int);
            assert((total * 1 + (n - 1)) % (total as int) == (n - 1) % (total as int));
            assert(i + n == total * 1 + (n - 1));
        } else {
            assert(j + (n - 1) == i + n);
        }
    }
}

/// Seek round trip: seeking forward by `n` frames and then backward by
/// `n` lands on the index the cursor started at — and so, by the
/// cursor's invariant, reproduces the exact registry state that existed
/// there, not a stale one.
pub proof fn lemma_seek_round_trip(i: nat, total: nat, n: nat)
    requires
        total > 0,
        i < total,
    ensures
        retreat_index(advance_index_n(i, total, n), total, n) == i,
{
    lemma_advance_is_mod(i, total, n);
    let f = (i + n) % total;
    let r = n % total;
    lemma_mod_bound((i + n) as int, total as int);
    lemma_mod_bound(n as int, total as int);
    lemma_sub_mod_noop((i + n) as int, n as int, total as int);
    assert((f - r) % (total as int) == (i as int) % (total as int));
    lemma_small_mod(i, total);
    if r <= f {
        lemma_small_mod((f - r) as nat, total);
        assert(retreat_index(f, total, n) == f - r);
    } else {
        lemma_mod_multiples_vanish(1, f - r, total as int);
        assert((total * 1 + (f - r)) % (total as int) == (f - r) % (total as int));
        lemma_small_mod((f + total - r) as nat, total);
        assert(retreat_index(f, total, n) == f + total - r);
    }
}

/// One stored checkpoint: a registry copy equal to the state after its
/// recorded number of frames.
spec fn checkpoint_ok(cp: (usize, Registry), frames: Seq<FrameView>, roles: RoleMap) -> bool {
    &&& cp.1.inv()
    &&& wf(cp.1@)
    &&& cp.0 < frames.len()
    &&& cp.1@ == state_at(frames, roles, cp.0 as int)
}

/// How many forward steps lie between consecutive checkpoints.
pub const CHECKPOINT_EVERY: usize = 64;

/// The cursor: the loaded frames and role mapping, the current index,
/// the registry holding the state at that index, and the recorded
/// checkpoints.
pub struct Cursor {
    frames: Vec<Frame>,
    roles: RoleMap,
    index: usize,
    registry: Registry,
    checkpoints: Vec<(usize, Registry)>,
}

impl Cursor {
    /// The loaded frame sequence.
    pub closed spec fn spec_frames(&self) -> Seq<FrameView> {
        frame_views(self.frames@)
    }

    /// The role mapping in use.
    pub closed spec fn spec_roles(&self) -> RoleMap {
        self.roles
    }

    /// The current frame index.
    pub closed spec fn spec_index(&self) -> nat {
        self.index as nat
    }

    /// How many frames are loaded.
    pub closed spec fn spec_total(&self) -> nat {
        self.frames@.len()
    }

    /// The registry's current state.
    pub closed spec fn spec_registry(&self) -> RegistryView {
        self.registry@
    }

    /// The cursor's invariant: the registry always holds exactly the
    /// state the frames before the current index produce, it is
    /// well-formed, and every checkpoint is faithful.
    pub closed spec fn inv(&self) -> bool {
        &&& self.registry.inv()
        &&& wf(self.registry@)
        &&& self.registry@ == state_at(self.spec_frames(), self.roles, self.index as int)
        &&& (self.index < self.frames@.len() || self.index == 0)
        &&& forall|j: int|
            0 <= j < self.checkpoints@.len() ==> checkpoint_ok(
                #[trigger] self.checkpoints@[j],
                self.spec_frames(),
                self.roles,
            )
    }

    /// What a cursor's invariant guarantees, for callers: the registry
    /// is well-formed and equals the state at the current index.
    pub proof fn lemma_inv(&self)
        requires
            self.inv(),
        ensures
            wf(self.spec_registry()),
            self.spec_registry() == state_at(
                self.spec_frames(),
                self.spec_roles(),
                self.spec_index() as int,
            ),
            self.spec_index() < self.spec_total() || self.spec_index() == 0,
    {
    }

    /// A cursor over `frames` with an already-resolved role mapping,
    /// standing at frame 0 with an empty registry.
    pub fn new(roles: RoleMap, frames: Vec<Frame>) -> (c: Cursor)
        ensures
            c.inv(),
            c.spec_index() == 0,
            c.spec_total() == frames@.len(),
            c.spec_frames() == frame_views(frames@),
            c.spec_roles() == roles,
            c.spec_registry() == empty_registry_view(),
    {
        let c = Cursor {
            frames,
            roles,
            index: 0,
            registry: Registry::new(),
            checkpoints: Vec::new(),
        };
        proof {
            lemma_empty_wf();
        }
        c
    }

    /// Load a match: resolve the role mapping from the name table once,
    /// then stand at frame 0 with an empty registry.
    pub fn load(names: &Vec<String>, frames: Vec<Frame>) -> (c: Cursor)
        requires
            names@.len() <= u32::MAX as int,
        ensures
            c.inv(),
            c.spec_index() == 0,
            c.spec_total() == frames@.len(),
            c.spec_frames() == frame_views(frames@),
            c.spec_roles() == resolve_spec(names.deep_view()),
            c.spec_registry() == empty_registry_view(),
    {
        let roles = resolve(names);
        Cursor::new(roles, frames)
    }

    /// How many frames are loaded, for progress display.
    pub fn total_frames(&self) -> (n: usize)
        ensures
            n == self.spec_total(),
    {
        self.frames.len()
    }

    /// The current frame index, for progress display.
    pub fn current_index(&self) -> (i: usize)
        ensures
            i == self.spec_index(),
    {
        self.index
    }

    /// Read-only access to the registry, for the snapshot adapter.
    pub fn current_registry(&self) -> (r: &Registry)
        requires
            self.inv(),
        ensures
            r.inv(),
            r@ == self.spec_registry(),
    {
        &self.registry
    }

    /// Whether a checkpoint for `idx` is already recorded.
    fn has_checkpoint(&self, idx: usize) -> (b: bool)
    {
        let n = self.checkpoints.len();
        let mut j: usize = 0;
        while j < n
            invariant
                n == self.checkpoints@.len(),
                j <= n,
            decreases n - j,
        {
            if self.checkpoints[j].0 == idx {
                return true;
            }
            j = j + 1;
        }
        false
    }

    /// Apply the current frame and advance by one, wrapping to frame 0
    /// and clearing the registry past the last frame. With no frames
    /// loaded this is a no-op.
    pub fn step(&mut self)
        requires
            old(self).inv(),
        ensures
            final(self).inv(),
            final(self).spec_frames() == old(self).spec_frames(),
            final(self).spec_roles() == old(self).spec_roles(),
            final(self).spec_total() == old(self).spec_total(),
            final(self).spec_index() == if old(self).spec_total() == 0 {
                old(self).spec_index()
            } else {
                advance_index(old(self).spec_index(), old(self).spec_total())
            },
    {
        let total = self.frames.len();
        if total == 0 {
            return;
        }
        proof {
            assert(self.spec_frames()[self.index as int] == self.frames@[self.index as int]@);
            lemma_cascade_frame(self.registry@, self.roles, self.spec_frames()[self.index as int]);
        }
        apply_frame(&mut self.registry, &self.roles, &self.frames[self.index]);
        self.index = self.index + 1;
        if self.index == total {
            self.index = 0;
            self.registry = Registry::new();
            proof {
                lemma_empty_wf();
            }
        } else {
            if self.index % CHECKPOINT_EVERY == 0 {
                if !self.has_checkpoint(self.index) {
                    let copy = self.registry.duplicate();
                    self.checkpoints.push((self.index, copy));
                }
            }
        }
    }

    /// Advance or rewind by a signed frame count. Seeking forward by `n`
    /// re-runs the projector `n` times; seeking backward restores the
    /// nearest recorded checkpoint at or before the target index and
    /// replays up to it, so the registry state is exactly the state at
    /// the target — never a stale one.
    pub fn seek(&mut self, offset: i32)
        requires
            old(self).inv(),
        ensures
            final(self).inv(),
            final(self).spec_frames() == old(self).spec_frames(),
            final(self).spec_roles() == old(self).spec_roles(),
            final(self).spec_total() == old(self).spec_total(),
            final(self).spec_index() == if old(self).spec_total() == 0 {
                old(self).spec_index()
            } else if offset >= 0 {
                advance_index_n(old(self).spec_index(), old(self).spec_total(), offset as nat)
            } else {
                retreat_index(
                    old(self).spec_index(),
                    old(self).spec_total(),
                    (-(offset as int)) as nat,
                )
            },
    {
        let total = self.frames.len();
        if total == 0 {
            return;
        }
        if offset >= 0 {
            let n: u32 = offset as u32;
            let mut done: u32 = 0;
            while done < n
                invariant
                    self.inv(),
                    done <= n,
                    total == self.frames@.len(),
                    total > 0,
                    self.spec_frames() == old(self).spec_frames(),
                    self.spec_roles() == old(self).spec_roles(),
                    self.spec_index() == advance_index_n(
                        old(self).spec_index(),
                        total as nat,
                        done as nat,
                    ),
                decreases n - done,
            {
                proof {
                    lemma_advance_snoc(old(self).spec_index(), total as nat, done as nat);
                }
                self.step();
                done = done + 1;
            }
        } else {
            let magnitude: u64 = (-(offset as i64)) as u64;
            let k: usize = (magnitude % (total as u64)) as usize;
            let target: usize = if k <= self.index {
                self.index - k
            } else {
                total - (k - self.index)
            };
            proof {
                assert(target == retreat_index(
                    old(self).spec_index(),
                    total as nat,
                    (-(offset as int)) as nat,
                ));
            }
            let n_cp = self.checkpoints.len();
            let mut best: Option<usize> = None;
            let mut base_idx: usize = 0;
            let mut j: usize = 0;
            while j < n_cp
                invariant
                    n_cp == self.checkpoints@.len(),
                    j <= n_cp,
                    base_idx <= target,
                    match best {
                        Some(p) => p < n_cp && self.checkpoints@[p as int].0 == base_idx,
                        None => base_idx == 0,
                    },
                decreases n_cp - j,
            {
                let ci = self.checkpoints[j].0;
                if ci <= target && ci >= base_idx {
                    base_idx = ci;
                    best = Some(j);
                }
                j = j + 1;
            }
            match best {
                Some(p) => {
                    let at = self.checkpoints[p].0;
                    let restored = self.checkpoints[p].1.duplicate();
                    self.registry = restored;
                    self.index = at;
                }
                None => {
                    self.registry = Registry::new();
                    self.index = 0;
                    proof {
                        lemma_empty_wf();
                    }
                }
            }
            while self.index < target
                invariant
                    self.inv(),
                    self.index <= target,
                    target < total,
                    total == self.frames@.len(),
                    self.spec_frames() == old(self).spec_frames(),
                    self.spec_roles() == old(self).spec_roles(),
                decreases target - self.index,
            {
                self.step();
            }
        }
    }
}

} // verus!
