//! The streaming stress run: what to upload, what to keep live, what to retire.
use std::collections::VecDeque;

use vstd::arithmetic::div_mod::lemma_add_mod_noop;
use vstd::prelude::*;

verus! {

/// Streamed meshes that are live at most.
pub const WORKING_SET_SIZE: usize = 32;

/// Uploads that are tried each frame.
pub const UPLOADS_PER_FRAME_ATTEMPT: usize = 256;

/// Every this many frames a mesh is drawn and retired within one frame.
pub const SAME_FRAME_RETIRE_INTERVAL: u64 = 7;

/// The vertex counts that uploads go through, small and large by turns.
pub open spec fn vertex_counts() -> Seq<usize> {
    seq![3, 16, 64, 256, 512, 1024]
}

/// The next state of the number generator.
pub open spec fn stepped(rng: u64) -> u64 {
    rng.wrapping_mul(6_364_136_223_846_793_005).wrapping_add(1_442_695_040_888_963_407)
}

/// The state of the number generator after `n` steps.
pub open spec fn after_steps(seed: u64, n: nat) -> u64
    decreases n,
{
    if n == 0 {
        seed
    } else {
        stepped(after_steps(seed, (n - 1) as nat))
    }
}

/// The first `count` numbers from a seed: the top 31 bits of each state that follows it.
pub fn random_numbers(seed: u64, count: usize) -> (out: Vec<u32>)
    ensures
        out.len() == count,
        forall|i: int|
            0 <= i < count ==> #[trigger] out[i] == after_steps(seed, (i + 1) as nat)
                / 0x2_0000_0000,
{
    let mut rng: u64 = seed;
    let mut out: Vec<u32> = Vec::new();
    let mut i: usize = 0;
    while i < count
        invariant
            i <= count,
            out.len() == i,
            rng == after_steps(seed, i as nat),
            forall|j: int|
                0 <= j < i ==> #[trigger] out[j] == after_steps(seed, (j + 1) as nat)
                    / 0x2_0000_0000,
        decreases count - i,
    {
        rng = rng.wrapping_mul(6_364_136_223_846_793_005).wrapping_add(1_442_695_040_888_963_407);
        proof {
            assert(rng >> 33 == rng / 0x2_0000_0000 && rng >> 33 < 0x8000_0000) by (bit_vector);
        }
        out.push((rng >> 33) as u32);
        i = i + 1;
    }
    out
}

/// The `t`-th triangle of a fan around vertex zero.
pub open spec fn fan_triangle(t: int) -> Seq<int> {
    seq![0, t + 1, t + 2]
}

/// The triangles of a fan around vertex zero.
pub fn fan_indices(verts: u32) -> (out: Vec<u32>)
    requires
        verts >= 3,
        3 * (verts - 2) <= usize::MAX,
    ensures
        out.len() == 3 * (verts - 2),
        forall|t: int, q: int|
            0 <= t < verts - 2 && 0 <= q < 3 ==> out[3 * t + q] == #[trigger] fan_triangle(t)[q],
        forall|t: int| 0 <= t < verts - 2 ==> #[trigger] turns_on(out@, t),
{
    let mut out: Vec<u32> = Vec::new();
    let mut i: u32 = 1;
    while i < verts - 1
        invariant
            verts >= 3,
            1 <= i <= verts - 1,
            out.len() == 3 * (i - 1),
            forall|t: int, q: int|
                0 <= t < i - 1 && 0 <= q < 3 ==> out[3 * t + q] == #[trigger] fan_triangle(t)[q],
        decreases verts - i,
    {
        out.push(0);
        out.push(i);
        out.push(i + 1);
        i = i + 1;
    }
    proof {
        assert forall|t: int| 0 <= t < verts - 2 implies #[trigger] turns_on(out@, t) by {
            assert(out[3 * t + 0] == fan_triangle(t)[0]);
            assert(out[3 * t + 1] == fan_triangle(t)[1]);
            assert(out[3 * t + 2] == fan_triangle(t)[2]);
        }
    }
    out
}

/// Triangle `t` of a fan goes from the first vertex to the next two on the rim, so each shares an
/// edge with the one before.
pub open spec fn turns_on(out: Seq<u32>, t: int) -> bool {
    0 <= t && 3 * t + 3 <= out.len() && out[3 * t] == 0 && out[3 * t + 1] == t + 1 && out[3 * t + 2]
        == t + 2
}

/// The number generator is the linear one of Knuth: times a factor, plus one more number, in words
/// of 64 bits.
pub proof fn numbers_follow_the_rule(rng: u64)
    ensures
        stepped(rng) == (rng * 6_364_136_223_846_793_005 + 1_442_695_040_888_963_407)
            % 0x1_0000_0000_0000_0000,
{
    let m = 0x1_0000_0000_0000_0000int;
    lemma_add_mod_noop(rng * 6_364_136_223_846_793_005, 1_442_695_040_888_963_407, m);
}

/// A run of numbers goes on as one that starts where it is: what follows after some steps depends
/// on the state there alone.
pub proof fn runs_go_on(seed: u64, a: nat, b: nat)
    ensures
        after_steps(seed, a + b) == after_steps(after_steps(seed, a), b),
    decreases b,
{
    if b > 0 {
        runs_go_on(seed, a, (b - 1) as nat);
    }
}

/// Uploads go through six sizes, from a single triangle to a thousand vertices and more, each at
/// least twice the one before, and then begin anew.
pub proof fn sizes_grow(n: int)
    requires
        0 <= n < 6,
    ensures
        vertex_counts().len() == 6,
        vertex_counts()[0] == 3,
        vertex_counts()[5] == 1024,
        n > 0 ==> vertex_counts()[n] >= 2 * vertex_counts()[n - 1],
        vertex_counts() == seq![3usize, 16, 64, 256, 512, 1024],
{
}

/// How an upload went.
#[derive(Clone, Copy, Debug, PartialEq, Eq, Structural)]
pub enum Attempt {
    /// Uploaded, as the mesh of this number.
    Uploaded(u64),
    /// Turned away for this frame.
    Backpressure,
    /// The device refused.
    Failed,
}

/// The state of a [`StressHarness`] as mathematics.
#[verifier::ext_equal]
pub struct StressState {
    /// The live meshes, oldest first.
    pub live: Seq<u64>,
    pub next_seed: u64,
    pub frame: u64,
    pub attempts: u64,
    pub uploads: u64,
    pub backpressure: u64,
    pub retired: u64,
}

impl StressState {
    /// The working set keeps its size, and every mesh that was uploaded is live or retired.
    pub open spec fn wf(self) -> bool {
        &&& self.live.len() <= WORKING_SET_SIZE
        &&& self.uploads == self.live.len() + self.retired
        &&& self.uploads + self.backpressure <= self.attempts
    }
}

/// The stress run.
pub struct StressHarness {
    live: VecDeque<u64>,
    next_seed: u64,
    frame: u64,
    total_upload_attempts: u64,
    total_uploads_ok: u64,
    total_backpressure: u64,
    total_retired: u64,
}

impl View for StressHarness {
    type V = StressState;

    closed spec fn view(&self) -> StressState {
        StressState {
            live: self.live@,
            next_seed: self.next_seed,
            frame: self.frame,
            attempts: self.total_upload_attempts,
            uploads: self.total_uploads_ok,
            backpressure: self.total_backpressure,
            retired: self.total_retired,
        }
    }
}

impl StressHarness {
    /// Nothing live, nothing counted.
    pub fn new() -> (s: Self)
        ensures
            s@.wf(),
            s@ == (StressState {
                live: Seq::empty(),
                next_seed: 0,
                frame: 0,
                attempts: 0,
                uploads: 0,
                backpressure: 0,
                retired: 0,
            }),
    {
        StressHarness {
            live: VecDeque::new(),
            next_seed: 0,
            frame: 0,
            total_upload_attempts: 0,
            total_uploads_ok: 0,
            total_backpressure: 0,
            total_retired: 0,
        }
    }

    /// The vertex count and the seed of the `i`-th mesh to try this frame.
    pub fn next_mesh(&self, i: usize) -> (m: (usize, u64))
        requires
            i + self@.frame <= usize::MAX,
        ensures
            m.0 == vertex_counts()[(i + self@.frame) % 6],
            m.1 == self@.next_seed,
    {
        let turn: usize = (i + self.frame as usize) % 6;
        let count: usize = match turn {
            0 => 3,
            1 => 16,
            2 => 64,
            3 => 256,
            4 => 512,
            _ => 1024,
        };
        (count, self.next_seed)
    }

    /// Notes how an attempt went. Hands back the mesh to retire: the oldest, once more than
    /// the working set is live.
    pub fn attempted(&mut self, attempt: Attempt) -> (retire: Option<u64>)
        requires
            old(self)@.wf(),
            old(self)@.next_seed < u64::MAX,
            old(self)@.attempts < u64::MAX,
        ensures
            final(self)@.wf(),
            ({
                let s = StressState {
                    next_seed: (old(self)@.next_seed + 1) as u64,
                    attempts: (old(self)@.attempts + 1) as u64,
                    ..old(self)@
                };
                match attempt {
                    Attempt::Uploaded(mesh) => {
                        let t = StressState { uploads: (s.uploads + 1) as u64, ..s };
                        let all = s.live.push(mesh);
                        if s.live.len() == 32 {
                            &&& retire == Some(all[0])
                            &&& final(self)@ == (StressState {
                                live: all.drop_first(),
                                retired: (s.retired + 1) as u64,
                                ..t
                            })
                        } else {
                            &&& retire is None
                            &&& final(self)@ == (StressState { live: all, ..t })
                        }
                    },
                    Attempt::Backpressure => retire is None && final(self)@ == (StressState {
                        backpressure: (s.backpressure + 1) as u64,
                        ..s
                    }),
                    Attempt::Failed => retire is None && final(self)@ == s,
                }
            }),
    {
        self.next_seed = self.next_seed + 1;
        self.total_upload_attempts = self.total_upload_attempts + 1;
        match attempt {
            Attempt::Uploaded(mesh) => {
                self.total_uploads_ok = self.total_uploads_ok + 1;
                self.live.push_back(mesh);
                if self.live.len() > WORKING_SET_SIZE {
                    let ghost all = self.live@;
                    let oldest = self.live.pop_front();
                    self.total_retired = self.total_retired + 1;
                    proof {
                        assert(self.live@ =~= all.drop_first());
                    }
                    oldest
                } else {
                    None
                }
            },
            Attempt::Backpressure => {
                self.total_backpressure = self.total_backpressure + 1;
                None
            },
            Attempt::Failed => None,
        }
    }

    /// Ends a frame after the live meshes were drawn. Every seventh frame, counted from the
    /// first, hands back the oldest mesh to retire within the frame it was drawn in.
    pub fn drawn(&mut self) -> (retire: Option<u64>)
        requires
            old(self)@.wf(),
            old(self)@.frame < u64::MAX,
        ensures
            final(self)@.wf(),
            ({
                let s = StressState { frame: (old(self)@.frame + 1) as u64, ..old(self)@ };
                if s.live.len() > 0 && old(self)@.frame % 7 == 0 {
                    &&& retire == Some(s.live[0])
                    &&& final(self)@ == (StressState {
                        live: s.live.drop_first(),
                        retired: (s.retired + 1) as u64,
                        ..s
                    })
                } else {
                    &&& retire is None
                    &&& final(self)@ == s
                }
            }),
    {
        let mut retire: Option<u64> = None;
        if self.live.len() > 0 && self.frame % SAME_FRAME_RETIRE_INTERVAL == 0 {
            let ghost all = self.live@;
            retire = self.live.pop_front();
            self.total_retired = self.total_retired + 1;
            proof {
                assert(self.live@ =~= all.drop_first());
            }
        }
        self.frame = self.frame + 1;
        retire
    }

    /// The live meshes, oldest first.
    pub fn live(&self) -> (meshes: Vec<u64>)
        ensures
            meshes@ == self@.live,
    {
        let mut meshes: Vec<u64> = Vec::new();
        let mut i: usize = 0;
        while i < self.live.len()
            invariant
                i <= self.live.len(),
                meshes@ == self.live@.take(i as int),
            decreases self.live.len() - i,
        {
            meshes.push(self.live[i]);
            proof {
                assert(self.live@.take(i as int + 1) =~= self.live@.take(i as int).push(
                    self.live@[i as int],
                ));
            }
            i = i + 1;
        }
        proof {
            assert(self.live@.take(self.live@.len() as int) =~= self.live@);
        }
        meshes
    }

    /// The counts: frames, attempts, uploads, attempts turned away, meshes retired.
    pub fn totals(&self) -> (t: (u64, u64, u64, u64, u64))
        ensures
            t == (
                self@.frame,
                self@.attempts,
                self@.uploads,
                self@.backpressure,
                self@.retired,
            ),
    {
        (
            self.frame,
            self.total_upload_attempts,
            self.total_uploads_ok,
            self.total_backpressure,
            self.total_retired,
        )
    }
}

} // verus!
