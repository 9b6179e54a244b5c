//! The temporally-accumulated history pair.
//!
//! Two same-sized surfaces alternate between the write role and the read
//! role by the parity of the frame counter: on even frames surface A is
//! written and surface B is read, on odd frames the roles swap. A frame
//! never reads and writes the same surface, and what one frame writes is
//! exactly what the next frame reads.

use crate::color::ColorBuffer;
use crate::color::MAX_DIM;
use crate::color::Rgba;
use vstd::prelude::*;

verus! {

/// Surface A holds the write role exactly on even frames.
pub open spec fn write_is_a(frame: nat) -> bool {
    frame % 2 == 0
}

/// The pair of history surfaces owned by one view.
pub struct GlobalIHistoryTextures {
    /// Surface A: the write target on even frames.
    pub tex_a: ColorBuffer,
    /// Surface B: the write target on odd frames.
    pub tex_b: ColorBuffer,
}

impl GlobalIHistoryTextures {
    /// Both surfaces valid and of identical size.
    pub open spec fn wf(self) -> bool {
        &&& self.tex_a.wf()
        &&& self.tex_b.wf()
        &&& self.tex_a.width == self.tex_b.width
        &&& self.tex_a.height == self.tex_b.height
    }

    /// The surface holding the write role at `frame`.
    pub open spec fn spec_write_side(self, frame: nat) -> ColorBuffer {
        if write_is_a(frame) {
            self.tex_a
        } else {
            self.tex_b
        }
    }

    /// The surface holding the read role at `frame`.
    pub open spec fn spec_read_side(self, frame: nat) -> ColorBuffer {
        if write_is_a(frame) {
            self.tex_b
        } else {
            self.tex_a
        }
    }

    /// The pair after the write side of `frame` is replaced by `buf`.
    pub open spec fn spec_store(self, frame: nat, buf: ColorBuffer) -> GlobalIHistoryTextures {
        if write_is_a(frame) {
            GlobalIHistoryTextures { tex_a: buf, ..self }
        } else {
            GlobalIHistoryTextures { tex_b: buf, ..self }
        }
    }

    /// A freshly allocated pair: both surfaces cleared to black.
    pub fn new(width: u32, height: u32) -> (h: GlobalIHistoryTextures)
        requires
            width <= MAX_DIM,
            height <= MAX_DIM,
        ensures
            h.wf(),
            h.tex_a.width == width,
            h.tex_a.height == height,
            forall|x: int, y: int|
                0 <= x < width && 0 <= y < height ==> h.tex_a.spec_at(x, y) == (Rgba {
                    r: 0,
                    g: 0,
                    b: 0,
                    a: 0,
                }) && h.tex_b.spec_at(x, y) == (Rgba { r: 0, g: 0, b: 0, a: 0 }),
    {
        GlobalIHistoryTextures {
            tex_a: ColorBuffer::cleared(width, height),
            tex_b: ColorBuffer::cleared(width, height),
        }
    }

    /// Borrow the read-role surface of `frame`.
    pub fn read_side(&self, frame: u64) -> (r: &ColorBuffer)
        ensures
            *r == self.spec_read_side(frame as nat),
    {
        if frame % 2 == 0 {
            &self.tex_b
        } else {
            &self.tex_a
        }
    }

    /// Replace the write-role surface of `frame` with `buf`, leaving the
    /// read-role surface untouched.
    pub fn store(&mut self, frame: u64, buf: ColorBuffer)
        requires
            old(self).wf(),
            buf.wf(),
            buf.width == old(self).tex_a.width,
            buf.height == old(self).tex_a.height,
        ensures
            final(self).wf(),
            *final(self) == old(self).spec_store(frame as nat, buf),
            final(self).spec_write_side(frame as nat) == buf,
            final(self).spec_read_side(frame as nat) == old(self).spec_read_side(frame as nat),
    {
        if frame % 2 == 0 {
            self.tex_a = buf;
        } else {
            self.tex_b = buf;
        }
    }
}

/// The write role alternates with exact parity: the surface written at one
/// frame is never the surface read at that frame, and it becomes the surface
/// read at the next frame.
pub proof fn lemma_role_parity(frame: nat)
    ensures
        write_is_a(frame) <==> !write_is_a(frame + 1),
        write_is_a(0),
        !write_is_a(1),
{
}

/// The surface a frame writes is the very surface the next frame reads, and
/// the other way round: the roles swap exactly once per frame.
pub proof fn lemma_write_side_becomes_read_side(h: GlobalIHistoryTextures, frame: nat)
    ensures
        h.spec_write_side(frame) == h.spec_read_side(frame + 1),
        h.spec_read_side(frame) == h.spec_write_side(frame + 1),
{
}

/// What frame `n` stores into its write side is exactly what frame `n + 1`
/// finds on its read side, whatever else the pair held.
pub proof fn lemma_history_handoff(h: GlobalIHistoryTextures, frame: nat, buf: ColorBuffer)
    ensures
        h.spec_store(frame, buf).spec_read_side(frame + 1) == buf,
        h.spec_store(frame, buf).spec_write_side(frame + 1) == h.spec_read_side(frame),
{
}

} // verus!
