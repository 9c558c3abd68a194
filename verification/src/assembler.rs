//! The layered emission pipeline around a [`CodeBuffer`].
//!
//! [`BaseAssembler`] exposes the buffer's append and offset operations and
//! nothing else.  [`RawRISCVAssembler`] appends fully pre-encoded instruction
//! words and offers direct encoders for instructions whose immediate is known
//! at call time.  [`Assembler`] is the label-aware top layer: an instruction
//! that targets a [`Label`] is emitted with its immediate field zeroed, and
//! the use site is registered so that binding the label patches the
//! placeholder.

use crate::buffer::{labels_unchanged, spec_resolved, CodeBuffer, Label, LabelUseRecord};
use crate::reloc::{delta_err, delta_ok, patched_word, unit_field, LabelUse};
use crate::AsmError;
use vstd::arithmetic::power2::lemma_pow2_pos;
use vstd::bytes::{lemma_auto_spec_u32_to_from_le_bytes, spec_u16_to_le_bytes,
    spec_u32_to_le_bytes};
use vstd::prelude::*;

verus! {

/// A RISC-V register operand, `x0` through `x31`.
#[derive(Clone, Copy, Debug, PartialEq, Eq, Structural)]
pub struct Reg {
    /// The register number, below 32.
    pub num: u8,
}

impl Reg {
    /// The register `x<num>`.
    pub fn new(num: u8) -> (r: Reg)
        requires
            num < 32,
        ensures
            r.num == num,
    {
        Reg { num }
    }
}

/// The `jal` instruction word for destination `rd`, with the immediate field
/// holding the unit offset `t`.
pub open spec fn jal_word(rd: Reg, t: int) -> u32 {
    LabelUse::RVJal20.spec_patched(((rd.num as u32) << 7) | 0x6F, t)
}

/// The `beq` instruction word comparing `rs1` and `rs2`, with the immediate
/// field holding the unit offset `t`.
pub open spec fn beq_word(rs1: Reg, rs2: Reg, t: int) -> u32 {
    LabelUse::RVB12.spec_patched(
        ((rs2.num as u32) << 20) | ((rs1.num as u32) << 15) | 0x63,
        t,
    )
}

/// The bottom layer: exactly the buffer's append and offset operations,
/// shared by the layers above.
pub struct BaseAssembler {
    /// The buffer this assembler session emits into.
    pub buffer: CodeBuffer,
}

impl BaseAssembler {
    /// The current write position of the underlying buffer.
    pub fn offset(&self) -> (r: u64)
        ensures
            r == self.buffer.spec_data().len(),
    {
        self.buffer.offset()
    }

    /// Appends a 32-bit word in little-endian byte order.
    pub fn write_u32(&mut self, word: u32)
        requires
            old(self).buffer.wf(),
        ensures
            final(self).buffer.wf(),
            final(self).buffer.spec_data() == old(self).buffer.spec_data()
                + spec_u32_to_le_bytes(word),
            labels_unchanged(old(self).buffer, final(self).buffer),
    {
        self.buffer.write_u32(word);
    }

    /// Appends a 16-bit halfword in little-endian byte order.
    pub fn write_u16(&mut self, half: u16)
        requires
            old(self).buffer.wf(),
        ensures
            final(self).buffer.wf(),
            final(self).buffer.spec_data() == old(self).buffer.spec_data()
                + spec_u16_to_le_bytes(half),
            labels_unchanged(old(self).buffer, final(self).buffer),
    {
        self.buffer.write_u16(half);
    }
}

/// The raw layer: appends fully pre-encoded instruction words, with no label
/// or relocation bookkeeping.
pub struct RawRISCVAssembler {
    /// The base layer this assembler forwards to.
    pub base: BaseAssembler,
}

impl RawRISCVAssembler {
    /// Appends a pre-encoded 32-bit instruction word.
    pub fn emit(&mut self, inst: u32)
        requires
            old(self).base.buffer.wf(),
        ensures
            final(self).base.buffer.wf(),
            final(self).base.buffer.spec_data() == old(self).base.buffer.spec_data()
                + spec_u32_to_le_bytes(inst),
            labels_unchanged(old(self).base.buffer, final(self).base.buffer),
    {
        self.base.write_u32(inst);
    }

    /// Appends a pre-encoded 16-bit compressed instruction.
    pub fn emit_compressed(&mut self, inst: u16)
        requires
            old(self).base.buffer.wf(),
        ensures
            final(self).base.buffer.wf(),
            final(self).base.buffer.spec_data() == old(self).base.buffer.spec_data()
                + spec_u16_to_le_bytes(inst),
            labels_unchanged(old(self).base.buffer, final(self).base.buffer),
    {
        self.base.write_u16(inst);
    }

    /// The current write position of the underlying buffer.
    pub fn offset(&self) -> (r: u64)
        ensures
            r == self.base.buffer.spec_data().len(),
    {
        self.base.offset()
    }

    /// Encodes `jal rd, imm` for a byte offset known at call time.  The
    /// offset must be even and fit 21 signed bits; otherwise the error is
    /// returned and nothing is emitted.
    pub fn jal(&mut self, rd: Reg, imm: i64) -> (r: Result<(), AsmError>)
        requires
            old(self).base.buffer.wf(),
            rd.num < 32,
        ensures
            final(self).base.buffer.wf(),
            labels_unchanged(old(self).base.buffer, final(self).base.buffer),
            if delta_ok(imm as int, LabelUse::RVJal20) {
                r is Ok && final(self).base.buffer.spec_data()
                    == old(self).base.buffer.spec_data() + spec_u32_to_le_bytes(
                    jal_word(rd, imm as int / 2),
                )
            } else {
                r == Err::<(), AsmError>(delta_err(imm as int, LabelUse::RVJal20))
                    && final(self).base.buffer.spec_data() == old(self).base.buffer.spec_data()
            },
    {
        let f = match checked_field(imm, LabelUse::RVJal20) {
            Ok(f) => f,
            Err(e) => {
                return Err(e);
            },
        };
        let w = patched_word(LabelUse::RVJal20, ((rd.num as u32) << 7) | 0x6F, f);
        self.base.write_u32(w);
        Ok(())
    }

    /// Encodes `beq rs1, rs2, imm` for a byte offset known at call time.
    /// The offset must be even and fit 13 signed bits; otherwise the error
    /// is returned and nothing is emitted.
    pub fn beq(&mut self, imm: i64, rs1: Reg, rs2: Reg) -> (r: Result<(), AsmError>)
        requires
            old(self).base.buffer.wf(),
            rs1.num < 32,
            rs2.num < 32,
        ensures
            final(self).base.buffer.wf(),
            labels_unchanged(old(self).base.buffer, final(self).base.buffer),
            if delta_ok(imm as int, LabelUse::RVB12) {
                r is Ok && final(self).base.buffer.spec_data()
                    == old(self).base.buffer.spec_data() + spec_u32_to_le_bytes(
                    beq_word(rs1, rs2, imm as int / 2),
                )
            } else {
                r == Err::<(), AsmError>(delta_err(imm as int, LabelUse::RVB12))
                    && final(self).base.buffer.spec_data() == old(self).base.buffer.spec_data()
            },
    {
        let f = match checked_field(imm, LabelUse::RVB12) {
            Ok(f) => f,
            Err(e) => {
                return Err(e);
            },
        };
        let w = patched_word(
            LabelUse::RVB12,
            ((rs2.num as u32) << 20) | ((rs1.num as u32) << 15) | 0x63,
            f,
        );
        self.base.write_u32(w);
        Ok(())
    }
}

/// The label-aware top layer: emits control-flow instructions that target a
/// [`Label`], leaving the immediate field zeroed until the label is bound.
pub struct Assembler {
    /// The raw layer this assembler forwards to.
    pub base: RawRISCVAssembler,
}

impl Assembler {
    /// The buffer this assembler session emits into.
    pub open spec fn buf(self) -> CodeBuffer {
        self.base.base.buffer
    }

    /// Starts an assembler session over `buffer`.
    pub fn new(buffer: CodeBuffer) -> (r: Assembler)
        ensures
            r.buf() == buffer,
    {
        Assembler { base: RawRISCVAssembler { base: BaseAssembler { buffer } } }
    }

    /// The current write position of the underlying buffer.
    pub fn offset(&self) -> (r: u64)
        ensures
            r == self.buf().spec_data().len(),
    {
        self.base.offset()
    }

    /// Allocates a fresh, unbound label in the underlying buffer.
    pub fn new_label(&mut self) -> (r: Label)
        requires
            old(self).buf().wf(),
        ensures
            final(self).buf().wf(),
            r.spec_id() == old(self).buf().num_labels(),
            final(self).buf().num_labels() == old(self).buf().num_labels() + 1,
            final(self).buf().spec_data() == old(self).buf().spec_data(),
            final(self).buf().label_target(r.spec_id()) is None,
            final(self).buf().pending_uses(r.spec_id()).len() == 0,
            forall|j: int|
                0 <= j < old(self).buf().num_labels() ==> final(self).buf().label_target(j) == old(
                    self,
                ).buf().label_target(j) && final(self).buf().pending_uses(j) == old(
                    self,
                ).buf().pending_uses(j),
    {
        self.base.base.buffer.new_label()
    }

    /// Binds `label` to the current offset, patching every pending use; see
    /// [`CodeBuffer::bind_label`].
    pub fn bind_label(&mut self, label: Label) -> (r: Result<u64, AsmError>)
        requires
            old(self).buf().wf(),
        ensures
            final(self).buf().wf(),
            final(self).buf().num_labels() == old(self).buf().num_labels(),
            ({
                let i = label.spec_id();
                if !(i < old(self).buf().num_labels()) {
                    &&& r == Err::<u64, AsmError>(AsmError::UnknownLabel)
                    &&& crate::buffer::buffer_unchanged(old(self).buf(), final(self).buf())
                } else if old(self).buf().label_target(i) is Some {
                    &&& r == Err::<u64, AsmError>(AsmError::AlreadyBound)
                    &&& crate::buffer::buffer_unchanged(old(self).buf(), final(self).buf())
                } else {
                    let target = old(self).buf().spec_data().len() as int;
                    let uses = old(self).buf().pending_uses(i);
                    if crate::buffer::all_uses_ok(uses, target) {
                        &&& r == Ok::<u64, AsmError>(target as u64)
                        &&& final(self).buf().spec_data() == crate::buffer::spec_resolve_all(
                            old(self).buf().spec_data(),
                            uses,
                            target,
                        )
                        &&& final(self).buf().spec_data().len() == old(
                            self,
                        ).buf().spec_data().len()
                        &&& final(self).buf().label_target(i) == Some(target as u64)
                        &&& final(self).buf().pending_uses(i).len() == 0
                        &&& forall|j: int|
                            0 <= j < old(self).buf().num_labels() && j != i
                                ==> final(self).buf().label_target(j) == old(
                                self,
                            ).buf().label_target(j) && final(self).buf().pending_uses(j) == old(
                                self,
                            ).buf().pending_uses(j)
                    } else {
                        let b = crate::buffer::first_bad_use(uses, target);
                        &&& r == Err::<u64, AsmError>(
                            delta_err(target - uses[b].at, uses[b].kind),
                        )
                        &&& crate::buffer::buffer_unchanged(old(self).buf(), final(self).buf())
                    }
                }
            }),
    {
        self.base.base.buffer.bind_label(label)
    }

    /// Emits `jal rd, label`: a placeholder jump whose 20-bit immediate is
    /// patched once `label` is bound.  A use of an already-bound label is
    /// resolved inline; if its delta is misaligned or out of range, the
    /// error is returned and the placeholder word stays unpatched.
    pub fn jal(&mut self, rd: Reg, label: Label) -> (r: Result<(), AsmError>)
        requires
            old(self).buf().wf(),
            rd.num < 32,
            0 <= label.spec_id() < old(self).buf().num_labels(),
        ensures
            final(self).buf().wf(),
            final(self).buf().num_labels() == old(self).buf().num_labels(),
            emit_to_label_post(
                old(self).buf(),
                final(self).buf(),
                r,
                jal_word(rd, 0),
                LabelUse::RVJal20,
                label.spec_id(),
            ),
    {
        let offset = self.offset();
        proof {
            lemma_zero_delta_ok(LabelUse::RVJal20);
        }
        let res = self.base.jal(rd, 0);
        proof {
            if res is Err {
                assert(false);
            }
            lemma_auto_spec_u32_to_from_le_bytes();
        }
        self.base.base.buffer.use_label_at_offset(offset, label, LabelUse::RVJal20)
    }

    /// Emits `beq rs1, rs2, label`: a placeholder branch whose 12-bit
    /// immediate is patched once `label` is bound.  A use of an
    /// already-bound label is resolved inline; if its delta is misaligned or
    /// out of range, the error is returned and the placeholder word stays
    /// unpatched.
    pub fn beq(&mut self, rs1: Reg, rs2: Reg, label: Label) -> (r: Result<(), AsmError>)
        requires
            old(self).buf().wf(),
            rs1.num < 32,
            rs2.num < 32,
            0 <= label.spec_id() < old(self).buf().num_labels(),
        ensures
            final(self).buf().wf(),
            final(self).buf().num_labels() == old(self).buf().num_labels(),
            emit_to_label_post(
                old(self).buf(),
                final(self).buf(),
                r,
                beq_word(rs1, rs2, 0),
                LabelUse::RVB12,
                label.spec_id(),
            ),
    {
        let offset = self.offset();
        proof {
            lemma_zero_delta_ok(LabelUse::RVB12);
        }
        let res = self.base.beq(0, rs1, rs2);
        proof {
            if res is Err {
                assert(false);
            }
            lemma_auto_spec_u32_to_from_le_bytes();
        }
        self.base.base.buffer.use_label_at_offset(offset, label, LabelUse::RVB12)
    }
}

/// What emitting a label-targeting instruction leaves behind: the
/// placeholder word `w` is appended at the old offset `o`; a use of an
/// unbound label is recorded at `o`; a use of a bound label is resolved
/// inline, patching the placeholder or reporting why its delta cannot be
/// encoded.
pub open spec fn emit_to_label_post(
    pre: CodeBuffer,
    post: CodeBuffer,
    r: Result<(), AsmError>,
    w: u32,
    k: LabelUse,
    i: int,
) -> bool {
    let o = pre.spec_data().len() as int;
    let placed = pre.spec_data() + spec_u32_to_le_bytes(w);
    match pre.label_target(i) {
        None => {
            &&& r is Ok
            &&& post.spec_data() == placed
            &&& post.pending_uses(i) == pre.pending_uses(i).push(
                LabelUseRecord { at: o as u64, kind: k },
            )
            &&& forall|j: int|
                0 <= j < pre.num_labels() ==> post.label_target(j) == pre.label_target(j)
            &&& forall|j: int|
                0 <= j < pre.num_labels() && j != i ==> post.pending_uses(j) == pre.pending_uses(j)
        },
        Some(target) => {
            let d = target - o;
            &&& post.num_labels() == pre.num_labels()
            &&& forall|j: int|
                0 <= j < pre.num_labels() ==> post.label_target(j) == pre.label_target(j)
                    && post.pending_uses(j) == pre.pending_uses(j)
            &&& if delta_ok(d, k) {
                r is Ok && post.spec_data() == spec_resolved(placed, o, target as int, k)
            } else {
                r == Err::<(), AsmError>(delta_err(d, k)) && post.spec_data() == placed
            }
        },
    }
}

/// A zero byte delta is aligned and in range for every relocation kind.
proof fn lemma_zero_delta_ok(k: LabelUse)
    ensures
        delta_ok(0, k),
{
    lemma_pow2_pos((k.spec_width() - 1) as nat);
    assert(0int % 2 == 0);
    assert(0int / 2 == 0);
}

/// Checks alignment and range of the signed byte offset `imm` for kind `k`
/// and returns the field pattern of its unit offset.
fn checked_field(imm: i64, k: LabelUse) -> (r: Result<u32, AsmError>)
    ensures
        match r {
            Ok(f) => delta_ok(imm as int, k) && f == crate::reloc::field_of(
                imm as int / 2,
                k.spec_width(),
            ),
            Err(e) => !delta_ok(imm as int, k) && e == delta_err(imm as int, k),
        },
{
    let (neg, mag) = if imm >= 0 {
        (false, imm as u64)
    } else if imm == i64::MIN {
        (true, 0x8000_0000_0000_0000u64)
    } else {
        (true, (-imm) as u64)
    };
    proof {
        assert((if neg {
            -(mag as int)
        } else {
            mag as int
        }) == imm);
    }
    unit_field(neg, mag, k)
}

} // verus!
