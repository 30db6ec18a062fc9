//! The frame-buffer arena: a bump-style pool of same-sized pixel buffers for
//! one output, recycled between frames instead of allocated anew.
//!
//! Every buffer carries its release state. The pool never hands out a buffer
//! that is not free, a producer may only write a buffer it has leased, and the
//! only way a presented buffer becomes reusable is the compositor's release
//! notification. Resizing discards every buffer of the old size.

use vstd::prelude::*;
use vstd::pervasive::VecAdditionalExecFns;

verus! {

/// How many buffers one pool may hold (double buffering).
pub const POOL_CAP: usize = 2;

/// Lifecycle of one frame buffer.
#[derive(Clone, Copy, PartialEq, Eq, Structural, Debug)]
pub enum BufferState {
    /// Released: free for the next lease.
    Free,
    /// Leased to the producing worker, which may write it.
    Drawing,
    /// Submitted for presentation; the compositor has not released it yet.
    Presented,
}

/// One pixel buffer, tagged with its release state.
pub struct FrameBuffer {
    pub pixels: Vec<u8>,
    pub state: BufferState,
}

/// Mathematical model of [`FrameBuffer`].
pub struct SpecFrameBuffer {
    pub pixels: Seq<u8>,
    pub state: BufferState,
}

impl View for FrameBuffer {
    type V = SpecFrameBuffer;

    open spec fn view(&self) -> SpecFrameBuffer {
        SpecFrameBuffer { pixels: self.pixels@, state: self.state }
    }
}

/// A bump-style pool of same-sized reusable buffers for one output.
pub struct BumpPool {
    pub buffers: Vec<FrameBuffer>,
    pub buf_len: usize,
}

/// The byte a solid fill writes at offset `k`: the RGBA pattern of `c` with
/// full alpha.
pub open spec fn color_byte(c: crate::types::Color, k: int) -> u8 {
    if k % 4 == 0 {
        c.r
    } else if k % 4 == 1 {
        c.g
    } else if k % 4 == 2 {
        c.b
    } else {
        255u8
    }
}

/// The full pixel payload of a solid fill of length `len`.
pub open spec fn color_pattern(c: crate::types::Color, len: int) -> Seq<u8> {
    Seq::new(len as nat, |k: int| color_byte(c, k))
}

/// Every buffer of the pool is with the presentation layer or a producer:
/// nothing is free, and the pool is full. This is exactly the state in which
/// a lease blocks.
pub open spec fn pool_exhausted(p: BumpPool) -> bool {
    &&& p.buffers@.len() == POOL_CAP
    &&& forall|j: int|
        0 <= j < p.buffers@.len() ==> (#[trigger] p.buffers@[j]).state != BufferState::Free
}

/// Buffer `bi` of the new pool was just submitted for presentation holding
/// `pixels`: it is `Presented`, it was either a free buffer of the old pool
/// or one freshly allocated at the end, and every other buffer of the old
/// pool is untouched.
pub open spec fn presented_at(
    old_pool: BumpPool,
    new_pool: BumpPool,
    pixels: Seq<u8>,
    bi: int,
) -> bool {
    &&& new_pool.buf_len == old_pool.buf_len
    &&& 0 <= bi < new_pool.buffers@.len()
    &&& new_pool.buffers@[bi].state == BufferState::Presented
    &&& new_pool.buffers@[bi].pixels@ == pixels
    &&& (bi < old_pool.buffers@.len() ==> old_pool.buffers@[bi].state == BufferState::Free
        && new_pool.buffers@.len() == old_pool.buffers@.len())
    &&& (bi >= old_pool.buffers@.len() ==> bi == old_pool.buffers@.len()
        && new_pool.buffers@.len() == old_pool.buffers@.len() + 1)
    &&& forall|j: int|
        0 <= j < old_pool.buffers@.len() && j != bi ==> (#[trigger] new_pool.buffers@[j])@
            == old_pool.buffers@[j]@
}

/// Some buffer of the new pool was just submitted for presentation holding
/// `pixels`.
pub open spec fn newly_presented(old_pool: BumpPool, new_pool: BumpPool, pixels: Seq<u8>) -> bool {
    exists|bi: int| presented_at(old_pool, new_pool, pixels, bi)
}

impl BumpPool {
    /// Every buffer has the pool's size and the pool is within capacity.
    pub open spec fn wf(&self) -> bool {
        &&& self.buffers@.len() <= POOL_CAP
        &&& forall|i: int|
            0 <= i < self.buffers@.len() ==> (#[trigger] self.buffers@[i]).pixels@.len()
                == self.buf_len
    }

    /// An empty pool whose future buffers will have `buf_len` bytes.
    pub fn new(buf_len: usize) -> (r: BumpPool)
        ensures
            r.wf(),
            r.buffers@.len() == 0,
            r.buf_len == buf_len,
    {
        BumpPool { buffers: Vec::new(), buf_len }
    }

    /// Lease a buffer for drawing: a free buffer if one exists, else a fresh
    /// one if the pool is under capacity, else `None` (the caller must wait
    /// for a release notification). The buffer handed out was free — never
    /// one still owned by the presentation layer.
    pub fn lease(&mut self) -> (r: Option<usize>)
        requires
            old(self).wf(),
        ensures
            final(self).wf(),
            final(self).buf_len == old(self).buf_len,
            match r {
                Some(i) => {
                    &&& i < final(self).buffers@.len()
                    &&& final(self).buffers@[i as int].state == BufferState::Drawing
                    &&& final(self).buffers@[i as int].pixels@.len() == old(self).buf_len
                    &&& (i < old(self).buffers@.len() ==> {
                        &&& old(self).buffers@[i as int].state == BufferState::Free
                        &&& final(self).buffers@.len() == old(self).buffers@.len()
                    })
                    &&& (i >= old(self).buffers@.len() ==> final(self).buffers@.len() == old(self).buffers@.len() + 1)
                    &&& forall|j: int|
                        0 <= j < old(self).buffers@.len() && j != i
                            ==> #[trigger] final(self).buffers@[j]@ == old(self).buffers@[j]@
                },
                None => {
                    &&& *final(self) == *old(self)
                    &&& old(self).buffers@.len() == POOL_CAP
                    &&& forall|j: int|
                        0 <= j < old(self).buffers@.len() ==> (#[trigger] old(self).buffers@[j]).state != BufferState::Free
                },
            },
    {
        let mut i: usize = 0;
        while i < self.buffers.len()
            invariant
                old(self).wf(),
                *self == *old(self),
                i <= self.buffers@.len(),
                forall|j: int|
                    0 <= j < i ==> (#[trigger] self.buffers@[j]).state != BufferState::Free,
            decreases self.buffers@.len() - i,
        {
            let free = match self.buffers[i].state {
                BufferState::Free => true,
                _ => false,
            };
            if free {
                let mut taken = FrameBuffer { pixels: Vec::new(), state: BufferState::Free };
                self.buffers.set_and_swap(i, &mut taken);
                taken.state = BufferState::Drawing;
                self.buffers.set(i, taken);
                proof {
                    assert(self.buffers@[i as int].pixels@ == old(self).buffers@[i as int].pixels@);
                    assert forall|j: int|
                        0 <= j < old(self).buffers@.len() && j != i implies #[trigger] self
                        .buffers@[j]@ == old(self).buffers@[j]@ by {
                        assert(self.buffers@[j] == old(self).buffers@[j]);
                    }
                    assert forall|j: int|
                        0 <= j < self.buffers@.len() implies (#[trigger] self.buffers@[j]).pixels@
                        .len() == self.buf_len by {
                        assert(old(self).buffers@[j].pixels@.len() == old(self).buf_len);
                    }
                }
                return Some(i);
            }
            i = i + 1;
        }
        if self.buffers.len() < POOL_CAP {
            let mut pixels: Vec<u8> = Vec::new();
            let mut k: usize = 0;
            while k < self.buf_len
                invariant
                    k <= self.buf_len,
                    pixels@.len() == k,
                decreases self.buf_len - k,
            {
                pixels.push(0);
                k = k + 1;
            }
            let idx = self.buffers.len();
            self.buffers.push(FrameBuffer { pixels, state: BufferState::Drawing });
            Some(idx)
        } else {
            None
        }
    }

    /// Overwrite a leased buffer with the given pixel data.
    pub fn store(&mut self, i: usize, data: &Vec<u8>)
        requires
            old(self).wf(),
            i < old(self).buffers@.len(),
            old(self).buffers@[i as int].state == BufferState::Drawing,
            data@.len() == old(self).buf_len,
        ensures
            final(self).wf(),
            final(self).buf_len == old(self).buf_len,
            final(self).buffers@.len() == old(self).buffers@.len(),
            final(self).buffers@[i as int].pixels@ == data@,
            final(self).buffers@[i as int].state == BufferState::Drawing,
            forall|j: int|
                0 <= j < old(self).buffers@.len() && j != i ==> #[trigger] final(self).buffers@[j]@ == old(self).buffers@[j]@,
    {
        let fresh = crate::types::copy_bytes(data);
        self.buffers.set(i, FrameBuffer { pixels: fresh, state: BufferState::Drawing });
    }

    /// Fill a leased buffer with a repeating RGBA pattern of the given color.
    pub fn fill_color(&mut self, i: usize, color: crate::types::Color)
        requires
            old(self).wf(),
            i < old(self).buffers@.len(),
            old(self).buffers@[i as int].state == BufferState::Drawing,
        ensures
            final(self).wf(),
            final(self).buf_len == old(self).buf_len,
            final(self).buffers@.len() == old(self).buffers@.len(),
            final(self).buffers@[i as int].state == BufferState::Drawing,
            final(self).buffers@[i as int].pixels@ == color_pattern(
                color,
                old(self).buf_len as int,
            ),
            forall|j: int|
                0 <= j < old(self).buffers@.len() && j != i ==> #[trigger] final(self).buffers@[j]@ == old(self).buffers@[j]@,
    {
        let mut pixels: Vec<u8> = Vec::new();
        let n = self.buf_len;
        let mut k: usize = 0;
        while k < n
            invariant
                k <= n,
                pixels@.len() == k,
                forall|m: int|
                    0 <= m < k ==> #[trigger] pixels@[m] == (if m % 4 == 0 {
                        color.r
                    } else if m % 4 == 1 {
                        color.g
                    } else if m % 4 == 2 {
                        color.b
                    } else {
                        255u8
                    }),
            decreases n - k,
        {
            let rem = k % 4;
            if rem == 0 {
                pixels.push(color.r);
            } else if rem == 1 {
                pixels.push(color.g);
            } else if rem == 2 {
                pixels.push(color.b);
            } else {
                pixels.push(255);
            }
            k = k + 1;
        }
        proof {
            assert(pixels@ =~= color_pattern(color, n as int));
        }
        self.buffers.set(i, FrameBuffer { pixels, state: BufferState::Drawing });
    }

    /// Submit a leased buffer for presentation; it is now owned by the
    /// presentation layer and must not be touched until released.
    pub fn submit(&mut self, i: usize)
        requires
            old(self).wf(),
            i < old(self).buffers@.len(),
            old(self).buffers@[i as int].state == BufferState::Drawing,
        ensures
            final(self).wf(),
            final(self).buf_len == old(self).buf_len,
            final(self).buffers@.len() == old(self).buffers@.len(),
            final(self).buffers@[i as int].state == BufferState::Presented,
            final(self).buffers@[i as int].pixels@ == old(self).buffers@[i as int].pixels@,
            forall|j: int|
                0 <= j < old(self).buffers@.len() && j != i ==> #[trigger] final(self).buffers@[j]@ == old(self).buffers@[j]@,
    {
        let mut taken = FrameBuffer { pixels: Vec::new(), state: BufferState::Free };
        self.buffers.set_and_swap(i, &mut taken);
        taken.state = BufferState::Presented;
        self.buffers.set(i, taken);
    }

    /// The compositor released a presented buffer: it is reusable again.
    /// This is the only transition back to `Free`.
    pub fn release_notify(&mut self, i: usize)
        requires
            old(self).wf(),
            i < old(self).buffers@.len(),
            old(self).buffers@[i as int].state == BufferState::Presented,
        ensures
            final(self).wf(),
            final(self).buf_len == old(self).buf_len,
            final(self).buffers@.len() == old(self).buffers@.len(),
            final(self).buffers@[i as int].state == BufferState::Free,
            final(self).buffers@[i as int].pixels@ == old(self).buffers@[i as int].pixels@,
            forall|j: int|
                0 <= j < old(self).buffers@.len() && j != i ==> #[trigger] final(self).buffers@[j]@ == old(self).buffers@[j]@,
    {
        let mut taken = FrameBuffer { pixels: Vec::new(), state: BufferState::Free };
        self.buffers.set_and_swap(i, &mut taken);
        taken.state = BufferState::Free;
        self.buffers.set(i, taken);
    }

    /// The output was resized: every buffer of the old size is discarded and
    /// later leases will allocate at the new size.
    pub fn resize(&mut self, new_len: usize)
        ensures
            final(self).wf(),
            final(self).buffers@.len() == 0,
            final(self).buf_len == new_len,
    {
        self.buffers = Vec::new();
        self.buf_len = new_len;
    }
}

} // verus!
