use rvasm::assembler::{Assembler, Reg};
use rvasm::buffer::CodeBuffer;
use rvasm::reloc::{decode_imm_units, LabelUse};
use rvasm::AsmError;

const NOP: u32 = 0x0000_0013;

#[test]
fn emit_writes_little_endian_word() {
    let mut em = Assembler::new(CodeBuffer::new());
    em.base.emit(0xDEAD_BEEF);
    assert_eq!(em.base.base.buffer.data().as_slice(), &[0xEF, 0xBE, 0xAD, 0xDE]);
    assert_eq!(em.offset(), 4);
}

#[test]
fn emit_compressed_writes_halfword() {
    let mut em = Assembler::new(CodeBuffer::new());
    em.base.emit_compressed(0xA001);
    assert_eq!(em.base.base.buffer.data().as_slice(), &[0x01, 0xA0]);
    assert_eq!(em.offset(), 2);
}

#[test]
fn jal_forward_reference_round_trip() {
    let mut em = Assembler::new(CodeBuffer::new());
    let l = em.new_label();
    em.jal(Reg::new(1), l).unwrap();
    for _ in 0..3 {
        em.base.emit(NOP);
    }
    assert_eq!(em.bind_label(l), Ok(16));
    let w = em.base.base.buffer.read_u32_at(0);
    // jal x1, +16
    assert_eq!(w, 0x0100_00EF);
    // the decoded immediate is +8 units, i.e. the original +16 byte delta
    assert_eq!(decode_imm_units(LabelUse::RVJal20, w), 8);
}

#[test]
fn jal_backward_reference_resolves_inline() {
    let mut em = Assembler::new(CodeBuffer::new());
    let l = em.new_label();
    assert_eq!(em.bind_label(l), Ok(0));
    em.base.emit(NOP);
    em.jal(Reg::new(0), l).unwrap();
    let w = em.base.base.buffer.read_u32_at(4);
    // jal x0, -4
    assert_eq!(w, 0xFFDF_F06F);
    assert_eq!(decode_imm_units(LabelUse::RVJal20, w), -2);
}

#[test]
fn beq_patch_leaves_neighbors_untouched() {
    let mut em = Assembler::new(CodeBuffer::new());
    let l = em.new_label();
    em.beq(Reg::new(1), Reg::new(2), l).unwrap();
    let fillers: [u32; 4] = [0x1111_1111, 0x2222_2222, 0x3333_3333, 0x4444_4444];
    em.base.emit(fillers[0]);
    em.base.emit(fillers[1]);
    em.base.emit(fillers[2]);
    // the label lands 16 bytes past the branch word
    assert_eq!(em.bind_label(l), Ok(16));
    em.base.emit(fillers[3]);
    let w = em.base.base.buffer.read_u32_at(0);
    // +16 bytes = +8 units, packed into the B-type bit positions of beq x1, x2
    assert_eq!(w, 0x0020_8863);
    assert_eq!(decode_imm_units(LabelUse::RVB12, w), 8);
    for (i, f) in fillers.iter().enumerate() {
        assert_eq!(em.base.base.buffer.read_u32_at(4 + 4 * i as u64), *f);
    }
    assert_eq!(em.offset(), 20);
}

#[test]
fn forward_and_backward_orders_give_identical_bytes() {
    // forward: use the label while unbound, bind afterwards
    let mut fwd = Assembler::new(CodeBuffer::new());
    let l1 = fwd.new_label();
    fwd.jal(Reg::new(1), l1).unwrap();
    fwd.base.emit(NOP);
    assert_eq!(fwd.bind_label(l1), Ok(8));

    // backward: bind the use site's word against an already-bound label
    let mut bwd = Assembler::new(CodeBuffer::new());
    let l2 = bwd.new_label();
    bwd.base.jal(Reg::new(1), 0).unwrap();
    bwd.base.emit(NOP);
    assert_eq!(bwd.bind_label(l2), Ok(8));
    bwd.base.base.buffer.use_label_at_offset(0, l2, LabelUse::RVJal20).unwrap();

    assert_eq!(
        fwd.base.base.buffer.data().as_slice(),
        bwd.base.base.buffer.data().as_slice()
    );
}

#[test]
fn two_pending_uses_of_one_label() {
    let mut em = Assembler::new(CodeBuffer::new());
    let l = em.new_label();
    em.jal(Reg::new(1), l).unwrap();
    em.jal(Reg::new(2), l).unwrap();
    assert_eq!(em.bind_label(l), Ok(8));
    let w0 = em.base.base.buffer.read_u32_at(0);
    let w1 = em.base.base.buffer.read_u32_at(4);
    assert_eq!(decode_imm_units(LabelUse::RVJal20, w0), 4);
    assert_eq!(decode_imm_units(LabelUse::RVJal20, w1), 2);
}

#[test]
fn jump_out_of_range_fails_and_keeps_length() {
    let mut em = Assembler::new(CodeBuffer::new());
    let l = em.new_label();
    em.jal(Reg::new(1), l).unwrap();
    // pad so that the label would land 1,048,578 bytes past the jump
    for _ in 0..262143 {
        em.base.emit(NOP);
    }
    em.base.emit_compressed(0x0001);
    assert_eq!(em.offset(), 1_048_578);
    assert_eq!(em.bind_label(l), Err(AsmError::OutOfRange));
    // only the placeholder word exists at the use site; nothing more was
    // written and nothing was patched
    assert_eq!(em.offset(), 1_048_578);
    assert_eq!(em.base.base.buffer.read_u32_at(0), 0x0000_00EF);
}

#[test]
fn jump_at_range_edge_succeeds() {
    let mut em = Assembler::new(CodeBuffer::new());
    let l = em.new_label();
    em.jal(Reg::new(1), l).unwrap();
    // 1,048,574 bytes is the largest representable forward delta
    for _ in 0..262142 {
        em.base.emit(NOP);
    }
    em.base.emit_compressed(0x0001);
    assert_eq!(em.offset(), 1_048_574);
    assert_eq!(em.bind_label(l), Ok(1_048_574));
    let w = em.base.base.buffer.read_u32_at(0);
    assert_eq!(decode_imm_units(LabelUse::RVJal20, w), 524_287);
}

#[test]
fn branch_out_of_range_fails_at_bind() {
    let mut em = Assembler::new(CodeBuffer::new());
    let l = em.new_label();
    em.beq(Reg::new(1), Reg::new(2), l).unwrap();
    // the largest representable branch delta is 4094 bytes
    for _ in 0..1024 {
        em.base.emit(NOP);
    }
    assert_eq!(em.offset(), 4100);
    assert_eq!(em.bind_label(l), Err(AsmError::OutOfRange));
}

#[test]
fn failed_bind_patches_no_use_at_all() {
    let mut em = Assembler::new(CodeBuffer::new());
    let l = em.new_label();
    // the jump below can reach the label, the branch cannot
    em.jal(Reg::new(1), l).unwrap();
    em.beq(Reg::new(1), Reg::new(2), l).unwrap();
    for _ in 0..1024 {
        em.base.emit(NOP);
    }
    assert_eq!(em.offset(), 4104);
    let jump_placeholder = em.base.base.buffer.read_u32_at(0);
    assert_eq!(em.bind_label(l), Err(AsmError::OutOfRange));
    // the resolvable jump was not patched either: the bind failed as a whole
    assert_eq!(em.base.base.buffer.read_u32_at(0), jump_placeholder);
    assert_eq!(em.offset(), 4104);
}

#[test]
fn branch_to_odd_offset_is_misaligned() {
    let mut em = Assembler::new(CodeBuffer::new());
    em.base.emit(NOP);
    em.base.emit(NOP);
    let l = em.new_label();
    assert_eq!(em.bind_label(l), Ok(8));
    // a use site at an odd byte offset makes the delta odd
    let r = em.base.base.buffer.use_label_at_offset(1, l, LabelUse::RVB12);
    assert_eq!(r, Err(AsmError::Misaligned));
}

#[test]
fn direct_branch_immediate_errors() {
    let mut em = Assembler::new(CodeBuffer::new());
    assert_eq!(em.base.beq(7, Reg::new(1), Reg::new(2)), Err(AsmError::Misaligned));
    assert_eq!(em.base.beq(4096, Reg::new(1), Reg::new(2)), Err(AsmError::OutOfRange));
    assert_eq!(em.base.beq(-4098, Reg::new(1), Reg::new(2)), Err(AsmError::OutOfRange));
    // misalignment is reported before overflow
    assert_eq!(em.base.beq(4097, Reg::new(1), Reg::new(2)), Err(AsmError::Misaligned));
    // a failed emission writes nothing
    assert_eq!(em.offset(), 0);
    assert_eq!(em.base.beq(-4096, Reg::new(1), Reg::new(2)), Ok(()));
    assert_eq!(em.offset(), 4);
}

#[test]
fn direct_jump_immediate_bounds() {
    let mut em = Assembler::new(CodeBuffer::new());
    assert_eq!(em.base.jal(Reg::new(1), 1_048_574), Ok(()));
    assert_eq!(em.base.jal(Reg::new(1), -1_048_576), Ok(()));
    assert_eq!(em.base.jal(Reg::new(1), 1_048_576), Err(AsmError::OutOfRange));
    assert_eq!(em.base.jal(Reg::new(1), -1_048_578), Err(AsmError::OutOfRange));
    assert_eq!(em.base.jal(Reg::new(1), 3), Err(AsmError::Misaligned));
    assert_eq!(em.offset(), 8);
}

#[test]
fn double_bind_is_an_unrecoverable_error() {
    let mut em = Assembler::new(CodeBuffer::new());
    let l = em.new_label();
    assert_eq!(em.bind_label(l), Ok(0));
    em.base.emit(NOP);
    assert_eq!(em.bind_label(l), Err(AsmError::AlreadyBound));
}

#[test]
fn binding_a_foreign_label_fails() {
    let mut other = Assembler::new(CodeBuffer::new());
    let foreign = other.new_label();
    let _ = other;
    let mut em = Assembler::new(CodeBuffer::new());
    assert_eq!(em.bind_label(foreign), Err(AsmError::UnknownLabel));
}

#[test]
fn offset_tracks_emitted_bytes() {
    let mut em = Assembler::new(CodeBuffer::new());
    assert_eq!(em.offset(), 0);
    em.base.emit_compressed(0x0001);
    assert_eq!(em.offset(), 2);
    em.base.emit(NOP);
    assert_eq!(em.offset(), 6);
}
