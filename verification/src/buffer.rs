//! The code buffer: an append-only, randomly-patchable byte sequence that
//! owns the emitted machine code together with the registry of labels and
//! their pending uses.
//!
//! A [`Label`] is allocated unbound, may be referenced any number of times
//! while unbound, and is bound to a concrete byte offset exactly once.  A
//! reference to a label that is already bound is resolved inline; a reference
//! to an unbound label is recorded as a [`LabelUseRecord`] and resolved when
//! the label is bound.  Either order yields the same final bytes.

use crate::reloc::{delta_err, delta_ok, patched_word, unit_field, LabelUse};
use crate::AsmError;
use vstd::bytes::{spec_u16_to_le_bytes, spec_u32_from_le_bytes, spec_u32_to_le_bytes,
    u16_to_le_bytes, u32_from_le_bytes, u32_to_le_bytes};
use vstd::prelude::*;
use vstd::slice::slice_subrange;

verus! {

/// A symbolic handle for a not-yet-known code address, allocated by
/// [`CodeBuffer::new_label`].
#[derive(Clone, Copy, Debug)]
pub struct Label {
    id: usize,
}

impl Label {
    /// The index of this label in the buffer that allocated it.
    pub closed spec fn spec_id(self) -> int {
        self.id as int
    }
}

/// One recorded use site of a label: the byte offset of the instruction word
/// to patch, and the relocation kind that applies there.
#[derive(Clone, Copy, Debug, PartialEq, Eq, Structural)]
pub struct LabelUseRecord {
    /// Byte offset of the instruction word whose immediate field is patched.
    pub at: u64,
    /// The immediate shape to patch at that word.
    pub kind: LabelUse,
}

/// The buffer bytes with the one word at `at` patched for a label bound at
/// byte offset `target`: the word's immediate field is cleared and re-filled
/// with the unit offset `(target - at) / 2`.  No byte outside `at .. at + 4`
/// changes.
pub open spec fn spec_resolved(data: Seq<u8>, at: int, target: int, k: LabelUse) -> Seq<u8>
    recommends
        0 <= at,
        at + 4 <= data.len(),
{
    let w = spec_u32_from_le_bytes(data.subrange(at, at + 4));
    let pw = k.spec_patched(w, (target - at) / 2);
    data.subrange(0, at) + spec_u32_to_le_bytes(pw) + data.subrange(at + 4, data.len() as int)
}

/// The buffer bytes after resolving each recorded use in order against a
/// label bound at `target`.
pub open spec fn spec_resolve_all(data: Seq<u8>, uses: Seq<LabelUseRecord>, target: int) -> Seq<u8>
    decreases uses.len(),
{
    if uses.len() == 0 {
        data
    } else {
        spec_resolve_all(
            spec_resolved(data, uses[0].at as int, target, uses[0].kind),
            uses.skip(1),
            target,
        )
    }
}

/// Every recorded use can be resolved against a label bound at `target`.
pub open spec fn all_uses_ok(uses: Seq<LabelUseRecord>, target: int) -> bool {
    forall|j: int|
        0 <= j < uses.len() ==> delta_ok(target - #[trigger] uses[j].at, uses[j].kind)
}

/// The index of the first recorded use that cannot be resolved against a
/// label bound at `target`.
pub open spec fn first_bad_use(uses: Seq<LabelUseRecord>, target: int) -> int
    decreases uses.len(),
{
    if uses.len() == 0 {
        0
    } else if !delta_ok(target - uses[0].at, uses[0].kind) {
        0
    } else {
        1 + first_bad_use(uses.skip(1), target)
    }
}

proof fn lemma_first_bad_use_at(uses: Seq<LabelUseRecord>, target: int, i: int)
    requires
        0 <= i < uses.len(),
        forall|j: int| 0 <= j < i ==> delta_ok(target - #[trigger] uses[j].at, uses[j].kind),
        !delta_ok(target - uses[i].at, uses[i].kind),
    ensures
        first_bad_use(uses, target) == i,
    decreases i,
{
    if i > 0 {
        let tail = uses.skip(1);
        assert forall|j: int| 0 <= j < i - 1 implies delta_ok(
            target - #[trigger] tail[j].at,
            tail[j].kind,
        ) by {
            assert(tail[j] == uses[j + 1]);
        }
        assert(tail[i - 1] == uses[i]);
        lemma_first_bad_use_at(tail, target, i - 1);
    }
}

/// A code buffer: the emitted bytes, and for each allocated label either its
/// bound offset or the list of use sites waiting for it.
pub struct CodeBuffer {
    data: Vec<u8>,
    bound: Vec<Option<u64>>,
    pending: Vec<Vec<LabelUseRecord>>,
}

impl CodeBuffer {
    /// The emitted bytes.
    pub closed spec fn spec_data(self) -> Seq<u8> {
        self.data@
    }

    /// How many labels this buffer has allocated.
    pub closed spec fn num_labels(self) -> nat {
        self.bound@.len()
    }

    /// The offset label `i` is bound to, if it is bound.
    pub closed spec fn label_target(self, i: int) -> Option<u64>
        recommends
            0 <= i < self.num_labels(),
    {
        self.bound@[i]
    }

    /// The use sites still waiting for label `i`, in the order they were
    /// recorded.
    pub closed spec fn pending_uses(self, i: int) -> Seq<LabelUseRecord>
        recommends
            0 <= i < self.num_labels(),
    {
        self.pending@[i]@
    }

    /// Internal consistency: a bound label lies within the emitted bytes and
    /// keeps no pending uses, and every pending use site names a whole word
    /// of already-emitted bytes.
    pub closed spec fn wf(self) -> bool {
        &&& self.pending@.len() == self.bound@.len()
        &&& forall|i: int|
            0 <= i < self.bound@.len() ==> match #[trigger] self.bound@[i] {
                Some(off) => off <= self.data@.len() && self.pending@[i]@.len() == 0,
                None => true,
            }
        &&& forall|i: int, j: int|
            0 <= i < self.pending@.len() && 0 <= j < self.pending@[i]@.len()
                ==> (#[trigger] self.pending@[i]@[j]).at + 4 <= self.data@.len()
    }

    /// A fresh, empty buffer with no labels.
    pub fn new() -> (r: CodeBuffer)
        ensures
            r.wf(),
            r.spec_data() == Seq::<u8>::empty(),
            r.num_labels() == 0,
    {
        CodeBuffer { data: Vec::new(), bound: Vec::new(), pending: Vec::new() }
    }

    /// The current write position: the number of bytes emitted so far.
    pub fn offset(&self) -> (r: u64)
        ensures
            r == self.spec_data().len(),
    {
        self.data.len() as u64
    }

    /// The emitted bytes.
    pub fn data(&self) -> (r: &Vec<u8>)
        ensures
            r@ == self.spec_data(),
    {
        &self.data
    }

    /// Appends a 32-bit word in little-endian byte order.
    pub fn write_u32(&mut self, word: u32)
        requires
            old(self).wf(),
        ensures
            final(self).wf(),
            final(self).spec_data() == old(self).spec_data() + spec_u32_to_le_bytes(word),
            labels_unchanged(*old(self), *final(self)),
    {
        let mut bs = u32_to_le_bytes(word);
        self.data.append(&mut bs);
    }

    /// Appends a 16-bit halfword in little-endian byte order.
    pub fn write_u16(&mut self, half: u16)
        requires
            old(self).wf(),
        ensures
            final(self).wf(),
            final(self).spec_data() == old(self).spec_data() + spec_u16_to_le_bytes(half),
            labels_unchanged(*old(self), *final(self)),
    {
        let mut bs = u16_to_le_bytes(half);
        self.data.append(&mut bs);
    }

    /// Reads back the 32-bit little-endian word at byte offset `off`.
    pub fn read_u32_at(&self, off: u64) -> (r: u32)
        requires
            off + 4 <= self.spec_data().len(),
        ensures
            r == spec_u32_from_le_bytes(
                self.spec_data().subrange(off as int, off as int + 4),
            ),
    {
        let n: usize = self.data.len();
        proof {
            assert(off + 4 <= n);
        }
        let o = off as usize;
        let s = slice_subrange(self.data.as_slice(), o, o + 4);
        u32_from_le_bytes(s)
    }

    /// Allocates a fresh, unbound label.
    pub fn new_label(&mut self) -> (r: Label)
        requires
            old(self).wf(),
        ensures
            final(self).wf(),
            r.spec_id() == old(self).num_labels(),
            final(self).num_labels() == old(self).num_labels() + 1,
            final(self).spec_data() == old(self).spec_data(),
            final(self).label_target(r.spec_id()) is None,
            final(self).pending_uses(r.spec_id()).len() == 0,
            forall|j: int|
                0 <= j < old(self).num_labels() ==> final(self).label_target(j) == old(
                    self,
                ).label_target(j) && final(self).pending_uses(j) == old(self).pending_uses(j),
    {
        let id = self.bound.len();
        self.bound.push(None);
        self.pending.push(Vec::new());
        Label { id }
    }

    /// Patches the word at `at` against a label bound at `target`, after
    /// checking that the byte delta is aligned and that its unit offset fits
    /// `kind`'s width.  On error the bytes are left untouched.
    fn resolve_one(&mut self, at: u64, target: u64, kind: LabelUse) -> (r: Result<(), AsmError>)
        requires
            old(self).wf(),
            at + 4 <= old(self).spec_data().len(),
        ensures
            final(self).wf(),
            labels_unchanged(*old(self), *final(self)),
            final(self).spec_data().len() == old(self).spec_data().len(),
            ({
                let d = target - at;
                match r {
                    Ok(()) => delta_ok(d, kind) && final(self).spec_data() == spec_resolved(
                        old(self).spec_data(),
                        at as int,
                        target as int,
                        kind,
                    ),
                    Err(e) => !delta_ok(d, kind) && e == delta_err(d, kind)
                        && final(self).spec_data() == old(self).spec_data(),
                }
            }),
    {
        let (neg, mag) = if target >= at {
            (false, target - at)
        } else {
            (true, at - target)
        };
        proof {
            assert((if neg {
                -(mag as int)
            } else {
                mag as int
            }) == target - at);
        }
        let f = match unit_field(neg, mag, kind) {
            Ok(f) => f,
            Err(e) => {
                return Err(e);
            },
        };
        let ghost prev = self.data@;
        let w = self.read_u32_at(at);
        let pw = patched_word(kind, w, f);
        let bs = u32_to_le_bytes(pw);
        let n: usize = self.data.len();
        proof {
            assert(at + 4 <= n);
        }
        let a = at as usize;
        self.data[a] = bs[0];
        self.data[a + 1] = bs[1];
        self.data[a + 2] = bs[2];
        self.data[a + 3] = bs[3];
        proof {
            let expect = spec_resolved(prev, at as int, target as int, kind);
            assert(pw == kind.spec_patched(
                spec_u32_from_le_bytes(prev.subrange(at as int, at as int + 4)),
                (target - at) / 2,
            ));
            assert forall|x: int| 0 <= x < self.data@.len() implies self.data@[x] == expect[x] by {
                if x < at as int {
                    assert(expect[x] == prev.subrange(0, at as int)[x]);
                } else if x < at as int + 4 {
                    assert(expect[x] == spec_u32_to_le_bytes(pw)[x - at]);
                } else {
                    assert(expect[x] == prev.subrange(at as int + 4, prev.len() as int)[x - at
                        - 4]);
                }
            }
            assert(self.data@ =~= expect);
        }
        Ok(())
    }

    /// Registers a use of `label` at the already-emitted word at
    /// `use_offset`.  A use of an unbound label is recorded for later; a use
    /// of a bound label is resolved inline, so that forward and backward
    /// references produce identical final bytes.
    pub fn use_label_at_offset(&mut self, use_offset: u64, label: Label, kind: LabelUse) -> (r:
        Result<(), AsmError>)
        requires
            old(self).wf(),
            0 <= label.spec_id() < old(self).num_labels(),
            use_offset + 4 <= old(self).spec_data().len(),
        ensures
            final(self).wf(),
            final(self).num_labels() == old(self).num_labels(),
            ({
                let i = label.spec_id();
                match old(self).label_target(i) {
                    None => {
                        &&& r is Ok
                        &&& final(self).spec_data() == old(self).spec_data()
                        &&& final(self).pending_uses(i) == old(self).pending_uses(i).push(
                            LabelUseRecord { at: use_offset, kind },
                        )
                        &&& forall|j: int|
                            0 <= j < old(self).num_labels() ==> final(self).label_target(j) == old(
                                self,
                            ).label_target(j)
                        &&& forall|j: int|
                            0 <= j < old(self).num_labels() && j != i
                                ==> final(self).pending_uses(j) == old(self).pending_uses(j)
                    },
                    Some(target) => {
                        let d = target - use_offset;
                        &&& labels_unchanged(*old(self), *final(self))
                        &&& if delta_ok(d, kind) {
                            r is Ok && final(self).spec_data() == spec_resolved(
                                old(self).spec_data(),
                                use_offset as int,
                                target as int,
                                kind,
                            )
                        } else {
                            r == Err::<(), AsmError>(delta_err(d, kind))
                                && final(self).spec_data() == old(self).spec_data()
                        }
                    },
                }
            }),
    {
        let id = label.id;
        match self.bound[id] {
            None => {
                self.pending[id].push(LabelUseRecord { at: use_offset, kind });
                Ok(())
            },
            Some(target) => self.resolve_one(use_offset, target, kind),
        }
    }

    /// Binds `label` to the current offset and drains its pending uses,
    /// patching each recorded word in order.  If any pending use cannot be
    /// resolved — its delta misaligned or out of range — the error of the
    /// first such use is returned and the buffer is left entirely
    /// unchanged.  Binding a label twice, or binding a label this buffer
    /// did not allocate, fails without touching anything.
    #[verifier::loop_isolation(false)]
    pub fn bind_label(&mut self, label: Label) -> (r: Result<u64, AsmError>)
        requires
            old(self).wf(),
        ensures
            final(self).wf(),
            final(self).num_labels() == old(self).num_labels(),
            ({
                let i = label.spec_id();
                if !(i < old(self).num_labels()) {
                    &&& r == Err::<u64, AsmError>(AsmError::UnknownLabel)
                    &&& buffer_unchanged(*old(self), *final(self))
                } else if old(self).label_target(i) is Some {
                    &&& r == Err::<u64, AsmError>(AsmError::AlreadyBound)
                    &&& buffer_unchanged(*old(self), *final(self))
                } else {
                    let target = old(self).spec_data().len() as int;
                    let uses = old(self).pending_uses(i);
                    if all_uses_ok(uses, target) {
                        &&& r == Ok::<u64, AsmError>(target as u64)
                        &&& final(self).spec_data() == spec_resolve_all(
                            old(self).spec_data(),
                            uses,
                            target,
                        )
                        &&& final(self).spec_data().len() == old(self).spec_data().len()
                        &&& final(self).label_target(i) == Some(target as u64)
                        &&& final(self).pending_uses(i).len() == 0
                        &&& forall|j: int|
                            0 <= j < old(self).num_labels() && j != i
                                ==> final(self).label_target(j) == old(self).label_target(j)
                                && final(self).pending_uses(j) == old(self).pending_uses(j)
                    } else {
                        let b = first_bad_use(uses, target);
                        &&& r == Err::<u64, AsmError>(
                            delta_err(target - uses[b].at, uses[b].kind),
                        )
                        &&& buffer_unchanged(*old(self), *final(self))
                    }
                }
            }),
    {
        let id = label.id;
        if id >= self.bound.len() {
            return Err(AsmError::UnknownLabel);
        }
        if self.bound[id].is_some() {
            return Err(AsmError::AlreadyBound);
        }
        let target: u64 = self.data.len() as u64;
        let ghost orig = self.data@;
        let ghost bound0 = self.bound@;
        let ghost pending0 = self.pending@;
        let ghost uses = self.pending@[id as int]@;
        let m: usize = self.pending[id].len();
        // first pass: check every pending use, touching nothing
        let mut i: usize = 0;
        while i < m
            invariant
                self.wf(),
                self.data@ == orig,
                self.bound@ == bound0,
                self.pending@ == pending0,
                id < bound0.len(),
                pending0.len() == bound0.len(),
                uses == pending0[id as int]@,
                m == uses.len(),
                i <= m,
                target == orig.len(),
                forall|j: int|
                    0 <= j < i ==> delta_ok(target - #[trigger] uses[j].at, uses[j].kind),
            decreases m - i,
        {
            let rec = self.pending[id][i];
            let (neg, mag) = if target >= rec.at {
                (false, target - rec.at)
            } else {
                (true, rec.at - target)
            };
            proof {
                assert((if neg {
                    -(mag as int)
                } else {
                    mag as int
                }) == target - rec.at);
            }
            match unit_field(neg, mag, rec.kind) {
                Ok(_) => {},
                Err(e) => {
                    proof {
                        assert(rec == uses[i as int]);
                        lemma_first_bad_use_at(uses, target as int, i as int);
                    }
                    return Err(e);
                },
            }
            i += 1;
        }
        // second pass: patch every recorded word in order
        proof {
            assert(uses.skip(0) =~= uses);
        }
        let mut i: usize = 0;
        while i < m
            invariant
                self.wf(),
                self.data@.len() == orig.len(),
                self.bound@ == bound0,
                self.pending@.len() == pending0.len(),
                forall|j: int| 0 <= j < pending0.len() ==> #[trigger] self.pending@[j]@
                    == pending0[j]@,
                id < bound0.len(),
                pending0.len() == bound0.len(),
                bound0[id as int] is None,
                uses == pending0[id as int]@,
                m == uses.len(),
                i <= m,
                target == orig.len(),
                all_uses_ok(uses, target as int),
                spec_resolve_all(self.data@, uses.skip(i as int), target as int)
                    == spec_resolve_all(orig, uses, target as int),
            decreases m - i,
        {
            let rec = self.pending[id][i];
            let ghost mid = *self;
            let ghost before = self.data@;
            let res = self.resolve_one(rec.at, target, rec.kind);
            proof {
                assert(rec == uses[i as int]);
                assert(delta_ok(target - uses[i as int].at, uses[i as int].kind));
                if res is Err {
                    assert(false);
                }
                assert(self.bound@.len() == bound0.len());
                assert forall|j: int|
                    0 <= j < bound0.len() implies self.bound@[j] == bound0[j] by {
                    assert(self.label_target(j) == mid.label_target(j));
                }
                assert(self.bound@ =~= bound0);
                assert forall|j: int| 0 <= j < pending0.len() implies #[trigger] self.pending@[j]@
                    == pending0[j]@ by {
                    assert(self.pending_uses(j) == mid.pending_uses(j));
                }
                assert(uses.skip(i as int)[0] == uses[i as int]);
                assert(uses.skip(i as int).skip(1) =~= uses.skip(i as int + 1));
                assert(spec_resolve_all(before, uses.skip(i as int), target as int)
                    == spec_resolve_all(self.data@, uses.skip(i as int + 1), target as int));
            }
            i += 1;
        }
        proof {
            assert(uses.skip(m as int) =~= Seq::<LabelUseRecord>::empty());
            assert(self.data@ == spec_resolve_all(orig, uses, target as int));
        }
        self.pending[id].clear();
        self.bound[id] = Some(target);
        Ok(target)
    }
}

/// The two buffers hold the same bytes and the same labels in the same
/// states.
pub open spec fn buffer_unchanged(pre: CodeBuffer, post: CodeBuffer) -> bool {
    &&& post.spec_data() == pre.spec_data()
    &&& labels_unchanged(pre, post)
}

/// The two buffers hold the same labels in the same states.
pub open spec fn labels_unchanged(pre: CodeBuffer, post: CodeBuffer) -> bool {
    &&& post.num_labels() == pre.num_labels()
    &&& forall|j: int|
        0 <= j < pre.num_labels() ==> post.label_target(j) == pre.label_target(j)
            && post.pending_uses(j) == pre.pending_uses(j)
}

/// Round trip through a patched buffer: when the byte delta from the use
/// site to the bound label is aligned and in range, decoding the immediate
/// field of the patched word recovers exactly the unit offset
/// `(target - at) / 2`, and so the original byte delta.
pub proof fn lemma_resolved_word_round_trip(data: Seq<u8>, at: int, target: int, k: LabelUse)
    requires
        0 <= at,
        at + 4 <= data.len(),
        delta_ok(target - at, k),
    ensures
        k.spec_imm_units(
            spec_u32_from_le_bytes(spec_resolved(data, at, target, k).subrange(at, at + 4)),
        ) == (target - at) / 2,
{
    vstd::bytes::lemma_auto_spec_u32_to_from_le_bytes();
    let w = spec_u32_from_le_bytes(data.subrange(at, at + 4));
    let pw = k.spec_patched(w, (target - at) / 2);
    assert(spec_resolved(data, at, target, k).subrange(at, at + 4) =~= spec_u32_to_le_bytes(pw));
    crate::reloc::lemma_patched_round_trip(k, w, (target - at) / 2);
}

/// Resolving a use site is idempotent: it is a pure function of the buffer
/// bytes, the use site and the label address, and patching the same site a
/// second time with the same address changes nothing.
pub proof fn lemma_resolve_idempotent(data: Seq<u8>, at: int, target: int, k: LabelUse)
    requires
        0 <= at,
        at + 4 <= data.len(),
    ensures
        spec_resolved(spec_resolved(data, at, target, k), at, target, k) == spec_resolved(
            data,
            at,
            target,
            k,
        ),
{
    vstd::bytes::lemma_auto_spec_u32_to_from_le_bytes();
    let once = spec_resolved(data, at, target, k);
    let w = spec_u32_from_le_bytes(data.subrange(at, at + 4));
    let pw = k.spec_patched(w, (target - at) / 2);
    assert(once.subrange(at, at + 4) =~= spec_u32_to_le_bytes(pw));
    assert(spec_u32_from_le_bytes(once.subrange(at, at + 4)) == pw);
    crate::reloc::lemma_patched_idempotent(k, w, (target - at) / 2);
    assert(k.spec_patched(pw, (target - at) / 2) == pw);
    assert(once.subrange(0, at) =~= data.subrange(0, at));
    assert(once.subrange(at + 4, once.len() as int) =~= data.subrange(at + 4, data.len() as int));
    assert(spec_resolved(once, at, target, k) =~= once);
}

/// Forward and backward references resolve identically.  Emit a placeholder
/// word `w` after `data0`, so its use site is `o = data0.len()`.  If the
/// label is bound at `target` only after further bytes `rest` were emitted,
/// the recorded use is drained then (the left-hand side); if the label was
/// already bound at `target` when the placeholder was emitted, the use is
/// resolved inline and `rest` is emitted afterwards (the right-hand side).
/// Both orders produce the same final bytes.
pub proof fn lemma_use_bind_order_independent(
    data0: Seq<u8>,
    w: u32,
    rest: Seq<u8>,
    target: int,
    k: LabelUse,
)
    requires
        data0.len() + 4 <= u64::MAX,
    ensures
        ({
            let o = data0.len() as int;
            let placed = data0 + spec_u32_to_le_bytes(w);
            spec_resolve_all(
                placed + rest,
                seq![LabelUseRecord { at: o as u64, kind: k }],
                target,
            ) == spec_resolved(placed, o, target, k) + rest
        }),
{
    let o = data0.len() as int;
    let placed = data0 + spec_u32_to_le_bytes(w);
    let uses = seq![LabelUseRecord { at: o as u64, kind: k }];
    vstd::bytes::lemma_auto_spec_u32_to_from_le_bytes();
    assert(uses.skip(1) =~= Seq::<LabelUseRecord>::empty());
    assert(uses[0].at as int == o);
    assert(spec_resolve_all(
        spec_resolved(placed + rest, o, target, k),
        uses.skip(1),
        target,
    ) == spec_resolved(placed + rest, o, target, k));
    assert(spec_resolve_all(placed + rest, uses, target) == spec_resolved(
        placed + rest,
        o,
        target,
        k,
    ));
    lemma_resolve_append_commutes(placed, rest, o, target, k);
}

/// Patching a use site commutes with appending further bytes: the patch
/// reads and rewrites only the word at its own site, so a label may be bound
/// before or after later words are emitted without changing the outcome.
pub proof fn lemma_resolve_append_commutes(
    data: Seq<u8>,
    rest: Seq<u8>,
    at: int,
    target: int,
    k: LabelUse,
)
    requires
        0 <= at,
        at + 4 <= data.len(),
    ensures
        spec_resolved(data + rest, at, target, k) == spec_resolved(data, at, target, k) + rest,
{
    let whole = data + rest;
    assert(whole.subrange(at, at + 4) =~= data.subrange(at, at + 4));
    assert(whole.subrange(0, at) =~= data.subrange(0, at));
    assert(whole.subrange(at + 4, whole.len() as int) =~= data.subrange(
        at + 4,
        data.len() as int,
    ) + rest);
    assert(spec_resolved(whole, at, target, k) =~= spec_resolved(data, at, target, k) + rest);
}

} // verus!
