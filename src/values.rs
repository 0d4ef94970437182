//! Storage locations, abstract wasm values, safepoint kinds, trap codes and
//! offset-index entries, with their byte encodings.

use crate::bytes::{
    counted_bytes, le_i32, le_u64, le_usize, lemma_counted_round_trip, lemma_i32_round_trip,
    lemma_u64_round_trip, lemma_usize_round_trip, parse_counted, parse_i32, parse_u64,
    parse_usize, put_i32, put_u64, read_i32, read_u64, read_usize,
    read_usizes, rest, usize_dec, usize_enc, write_usize, write_usizes, CacheError,
};
use vstd::prelude::*;

verus! {

/// A machine register, identified by its number.
#[derive(Copy, Clone, Debug, PartialEq, Eq, Hash, Structural)]
pub struct RegisterIndex(pub usize);

/// Why a safepoint exists at a code offset.
#[derive(Copy, Clone, Debug, PartialEq, Eq, Hash, Structural)]
pub enum SuspendOffset {
    /// A loop header.
    Loop(usize),
    /// A call site.
    Call(usize),
    /// An instruction that may trap.
    Trappable(usize),
}

/// The reason for a trap.
#[derive(Copy, Clone, Debug, PartialEq, Eq, PartialOrd, Ord, Hash, Structural)]
pub enum ExceptionCode {
    /// An `unreachable` opcode was executed.
    Unreachable,
    /// An indirect call hit a function of the wrong signature.
    IncorrectCallIndirectSignature,
    /// A memory access was out of bounds.
    MemoryOutOfBounds,
    /// An indirect call index was out of bounds.
    CallIndirectOOB,
    /// An arithmetic exception, such as a division by zero.
    IllegalArithmetic,
    /// An atomic access was misaligned.
    MisalignedAtomicAccess,
}

/// The checkpoint that governs a range of code offsets.
#[derive(Copy, Clone, Debug, PartialEq, Eq, Hash, Structural)]
pub struct OffsetInfo {
    /// The first offset after the governed range.
    pub end_offset: usize,
    /// Index of the diff, in the owning function's diff list.
    pub diff_id: usize,
    /// Where the reconstructed state becomes valid.
    pub activate_offset: usize,
}

/// A value on the wasm operand stack or in a wasm local.
#[derive(Copy, Clone, Debug, PartialEq, Eq, Hash, Structural)]
pub enum WasmAbstractValue {
    /// Known only at run time.
    Runtime,
    /// A constant known at compile time.
    Const(u64),
}

/// Where one logical value is stored.
#[derive(Debug, PartialEq, Eq, Hash)]
pub enum MachineValue {
    Undefined,
    /// The vmctx pointer itself.
    Vmctx,
    /// vmctx dereferenced through a chain of byte offsets.
    VmctxDeref(Vec<usize>),
    /// A preserved register.
    PreserveRegister(RegisterIndex),
    /// A slot at a signed byte offset from the base pointer.
    CopyStackBPRelative(i32),
    /// Separates values inside the shadow region from those above it.
    ExplicitShadow,
    /// An abstract stack slot.
    WasmStack(usize),
    /// A wasm local slot.
    WasmLocal(usize),
    /// A 64-bit value kept in two 32-bit halves.
    TwoHalves(Box<(MachineValue, MachineValue)>),
}

/// The mathematical form of a [`MachineValue`].
pub enum ValueModel {
    Undefined,
    Vmctx,
    VmctxDeref(Seq<usize>),
    PreserveRegister(usize),
    CopyStackBPRelative(i32),
    ExplicitShadow,
    WasmStack(usize),
    WasmLocal(usize),
    TwoHalves(Box<ValueModel>, Box<ValueModel>),
}

impl MachineValue {
    pub open spec fn model(self) -> ValueModel
        decreases self,
    {
        match self {
            MachineValue::Undefined => ValueModel::Undefined,
            MachineValue::Vmctx => ValueModel::Vmctx,
            MachineValue::VmctxDeref(v) => ValueModel::VmctxDeref(v@),
            MachineValue::PreserveRegister(r) => ValueModel::PreserveRegister(r.0),
            MachineValue::CopyStackBPRelative(i) => ValueModel::CopyStackBPRelative(i),
            MachineValue::ExplicitShadow => ValueModel::ExplicitShadow,
            MachineValue::WasmStack(u) => ValueModel::WasmStack(u),
            MachineValue::WasmLocal(u) => ValueModel::WasmLocal(u),
            MachineValue::TwoHalves(b) => ValueModel::TwoHalves(
                Box::new(b.0.model()),
                Box::new(b.1.model()),
            ),
        }
    }
}

impl MachineValue {
    /// A deep copy of this value.
    pub fn duplicate(&self) -> (r: MachineValue)
        ensures
            r.model() == self.model(),
        decreases self,
    {
        match self {
            MachineValue::Undefined => MachineValue::Undefined,
            MachineValue::Vmctx => MachineValue::Vmctx,
            MachineValue::VmctxDeref(v) => {
                let mut c: Vec<usize> = Vec::new();
                let mut i: usize = 0;
                while i < v.len()
                    invariant
                        i <= v@.len(),
                        c@ == v@.take(i as int),
                    decreases v@.len() - i,
                {
                    c.push(v[i]);
                    i = i + 1;
                    assert(c@ =~= v@.take(i as int));
                }
                assert(c@ =~= v@);
                MachineValue::VmctxDeref(c)
            },
            MachineValue::PreserveRegister(r) => MachineValue::PreserveRegister(*r),
            MachineValue::CopyStackBPRelative(i) => MachineValue::CopyStackBPRelative(*i),
            MachineValue::ExplicitShadow => MachineValue::ExplicitShadow,
            MachineValue::WasmStack(u) => MachineValue::WasmStack(*u),
            MachineValue::WasmLocal(u) => MachineValue::WasmLocal(*u),
            MachineValue::TwoHalves(b) => {
                let x = b.0.duplicate();
                let y = b.1.duplicate();
                MachineValue::TwoHalves(Box::new((x, y)))
            },
        }
    }
}

impl Clone for MachineValue {
    fn clone(&self) -> (r: Self)
        ensures
            r.model() == self.model(),
    {
        self.duplicate()
    }
}

/// Every offset chain in `m` has a length that a `u32` count can hold.
pub open spec fn value_fits(m: ValueModel) -> bool
    decreases m,
{
    match m {
        ValueModel::VmctxDeref(s) => s.len() <= u32::MAX,
        ValueModel::TwoHalves(a, b) => value_fits(*a) && value_fits(*b),
        _ => true,
    }
}

/// The encoding of a storage location: a discriminant byte, then its payload.
pub open spec fn value_bytes(m: ValueModel) -> Seq<u8>
    decreases m,
{
    match m {
        ValueModel::Undefined => seq![0u8],
        ValueModel::Vmctx => seq![1u8],
        ValueModel::VmctxDeref(s) => seq![2u8] + counted_bytes(s, usize_enc()),
        ValueModel::PreserveRegister(r) => seq![3u8] + le_usize(r),
        ValueModel::CopyStackBPRelative(i) => seq![4u8] + le_i32(i),
        ValueModel::ExplicitShadow => seq![5u8],
        ValueModel::WasmStack(u) => seq![6u8] + le_usize(u),
        ValueModel::WasmLocal(u) => seq![7u8] + le_usize(u),
        ValueModel::TwoHalves(a, b) => seq![8u8] + value_bytes(*a) + value_bytes(*b),
    }
}

/// Reads a storage location at the front of `s`.
pub open spec fn parse_value(s: Seq<u8>) -> Result<(ValueModel, nat), CacheError>
    decreases s.len(),
{
    if s.len() < 1 {
        Err(CacheError::TruncatedInput)
    } else {
        let t = s[0];
        let b = s.subrange(1, s.len() as int);
        if t == 0 {
            Ok((ValueModel::Undefined, 1))
        } else if t == 1 {
            Ok((ValueModel::Vmctx, 1))
        } else if t == 2 {
            match parse_counted(b, usize_dec()) {
                Ok((xs, k)) => Ok((ValueModel::VmctxDeref(xs), 1 + k)),
                Err(e) => Err(e),
            }
        } else if t == 3 {
            match parse_usize(b) {
                Ok((r, k)) => Ok((ValueModel::PreserveRegister(r), 1 + k)),
                Err(e) => Err(e),
            }
        } else if t == 4 {
            match parse_i32(b) {
                Ok((i, k)) => Ok((ValueModel::CopyStackBPRelative(i), 1 + k)),
                Err(e) => Err(e),
            }
        } else if t == 5 {
            Ok((ValueModel::ExplicitShadow, 1))
        } else if t == 6 {
            match parse_usize(b) {
                Ok((u, k)) => Ok((ValueModel::WasmStack(u), 1 + k)),
                Err(e) => Err(e),
            }
        } else if t == 7 {
            match parse_usize(b) {
                Ok((u, k)) => Ok((ValueModel::WasmLocal(u), 1 + k)),
                Err(e) => Err(e),
            }
        } else if t == 8 {
            match parse_value(b) {
                Ok((x, k)) => {
                    if k > b.len() {
                        Err(CacheError::TruncatedInput)
                    } else {
                        match parse_value(b.subrange(k as int, b.len() as int)) {
                            Ok((y, m)) => Ok(
                                (ValueModel::TwoHalves(Box::new(x), Box::new(y)), 1 + k + m),
                            ),
                            Err(e) => Err(e),
                        }
                    }
                },
                Err(e) => Err(e),
            }
        } else {
            Err(CacheError::UnknownVariant)
        }
    }
}

/// Appends the encoding of `v`.
pub fn write_value(out: &mut Vec<u8>, v: &MachineValue)
    requires
        value_fits(v.model()),
    ensures
        final(out)@ == old(out)@ + value_bytes(v.model()),
    decreases v,
{
    let ghost start = out@;
    match v {
        MachineValue::Undefined => out.push(0u8),
        MachineValue::Vmctx => out.push(1u8),
        MachineValue::VmctxDeref(xs) => {
            out.push(2u8);
            write_usizes(out, xs);
            assert(out@ =~= start + value_bytes(v.model()));
        },
        MachineValue::PreserveRegister(r) => {
            out.push(3u8);
            write_usize(out, r.0);
            assert(out@ =~= start + value_bytes(v.model()));
        },
        MachineValue::CopyStackBPRelative(i) => {
            out.push(4u8);
            put_i32(out, *i);
            assert(out@ =~= start + value_bytes(v.model()));
        },
        MachineValue::ExplicitShadow => out.push(5u8),
        MachineValue::WasmStack(u) => {
            out.push(6u8);
            write_usize(out, *u);
            assert(out@ =~= start + value_bytes(v.model()));
        },
        MachineValue::WasmLocal(u) => {
            out.push(7u8);
            write_usize(out, *u);
            assert(out@ =~= start + value_bytes(v.model()));
        },
        MachineValue::TwoHalves(b) => {
            out.push(8u8);
            write_value(out, &b.0);
            write_value(out, &b.1);
            assert(out@ =~= start + value_bytes(v.model()));
        },
    }
    assert(out@ =~= start + value_bytes(v.model()));
}

/// Reads a storage location at `pos`, returning it with the position after it.
pub fn read_value(buf: &[u8], pos: usize) -> (r: Result<(MachineValue, usize), CacheError>)
    requires
        pos <= buf@.len(),
    ensures
        match parse_value(rest(buf@, pos as int)) {
            Ok((m, n)) => r matches Ok((v, p)) && v.model() == m && value_fits(m) && p == pos
                + n && p <= buf@.len(),
            Err(e) => r == Err::<(MachineValue, usize), CacheError>(e),
        },
    decreases buf@.len() - pos,
{
    let ghost s = rest(buf@, pos as int);
    if pos >= buf.len() {
        return Err(CacheError::TruncatedInput);
    }
    let t = buf[pos];
    let p = pos + 1;
    assert(s.subrange(1, s.len() as int) =~= rest(buf@, p as int));
    if t == 0 {
        Ok((MachineValue::Undefined, p))
    } else if t == 1 {
        Ok((MachineValue::Vmctx, p))
    } else if t == 2 {
        match read_usizes(buf, p) {
            Ok((xs, p2)) => Ok((MachineValue::VmctxDeref(xs), p2)),
            Err(e) => Err(e),
        }
    } else if t == 3 {
        match read_usize(buf, p) {
            Ok((x, p2)) => Ok((MachineValue::PreserveRegister(RegisterIndex(x)), p2)),
            Err(e) => Err(e),
        }
    } else if t == 4 {
        match read_i32(buf, p) {
            Ok((x, p2)) => Ok((MachineValue::CopyStackBPRelative(x), p2)),
            Err(e) => Err(e),
        }
    } else if t == 5 {
        Ok((MachineValue::ExplicitShadow, p))
    } else if t == 6 {
        match read_usize(buf, p) {
            Ok((x, p2)) => Ok((MachineValue::WasmStack(x), p2)),
            Err(e) => Err(e),
        }
    } else if t == 7 {
        match read_usize(buf, p) {
            Ok((x, p2)) => Ok((MachineValue::WasmLocal(x), p2)),
            Err(e) => Err(e),
        }
    } else if t == 8 {
        let (a, p2) = match read_value(buf, p) {
            Ok(x) => x,
            Err(e) => return Err(e),
        };
        let ghost b = rest(buf@, p as int);
        assert(b.subrange((p2 - p) as int, b.len() as int) =~= rest(buf@, p2 as int));
        let (c, p3) = match read_value(buf, p2) {
            Ok(x) => x,
            Err(e) => return Err(e),
        };
        let v = MachineValue::TwoHalves(Box::new((a, c)));
        Ok((v, p3))
    } else {
        Err(CacheError::UnknownVariant)
    }
}

/// A storage location read back from its encoding is the one written.
#[verifier::rlimit(100)]
pub proof fn lemma_value_round_trip(m: ValueModel, tail: Seq<u8>)
    requires
        value_fits(m),
    ensures
        parse_value(value_bytes(m) + tail) == Ok::<(ValueModel, nat), CacheError>(
            (m, value_bytes(m).len()),
        ),
    decreases m,
{
    let s = value_bytes(m) + tail;
    let b = s.subrange(1, s.len() as int);
    assert(s[0] == value_bytes(m)[0]);
    match m {
        ValueModel::VmctxDeref(xs) => {
            assert(b =~= counted_bytes(xs, usize_enc()) + tail);
            assert forall|i: int, t: Seq<u8>| 0 <= i < xs.len() implies #[trigger] usize_dec()(
                usize_enc()(xs[i]) + t,
            ) == Ok::<(usize, nat), CacheError>((xs[i], usize_enc()(xs[i]).len())) by {
                lemma_usize_round_trip(xs[i], t);
            }
            lemma_counted_round_trip(xs, tail, usize_enc(), usize_dec());
        },
        ValueModel::PreserveRegister(r) => {
            assert(b =~= le_usize(r) + tail);
            lemma_usize_round_trip(r, tail);
        },
        ValueModel::CopyStackBPRelative(i) => {
            assert(b =~= le_i32(i) + tail);
            lemma_i32_round_trip(i, tail);
        },
        ValueModel::WasmStack(u) => {
            assert(b =~= le_usize(u) + tail);
            lemma_usize_round_trip(u, tail);
        },
        ValueModel::WasmLocal(u) => {
            assert(b =~= le_usize(u) + tail);
            lemma_usize_round_trip(u, tail);
        },
        ValueModel::TwoHalves(x, y) => {
            let t2 = value_bytes(*y) + tail;
            assert(b =~= value_bytes(*x) + t2);
            lemma_value_round_trip(*x, t2);
            let k = value_bytes(*x).len();
            assert(b.subrange(k as int, b.len() as int) =~= t2);
            lemma_value_round_trip(*y, tail);
        },
        _ => {},
    }
}

/// The encoding of an abstract wasm value.
pub open spec fn wasm_value_bytes(w: WasmAbstractValue) -> Seq<u8> {
    match w {
        WasmAbstractValue::Runtime => seq![0u8],
        WasmAbstractValue::Const(c) => seq![1u8] + le_u64(c),
    }
}

/// Reads an abstract wasm value at the front of `s`.
pub open spec fn parse_wasm_value(s: Seq<u8>) -> Result<(WasmAbstractValue, nat), CacheError> {
    if s.len() < 1 {
        Err(CacheError::TruncatedInput)
    } else if s[0] == 0 {
        Ok((WasmAbstractValue::Runtime, 1))
    } else if s[0] == 1 {
        match parse_u64(s.subrange(1, s.len() as int)) {
            Ok((c, k)) => Ok((WasmAbstractValue::Const(c), 1 + k)),
            Err(e) => Err(e),
        }
    } else {
        Err(CacheError::UnknownVariant)
    }
}

/// Appends the encoding of `w`.
pub fn write_wasm_value(out: &mut Vec<u8>, w: WasmAbstractValue)
    ensures
        final(out)@ == old(out)@ + wasm_value_bytes(w),
{
    let ghost start = out@;
    match w {
        WasmAbstractValue::Runtime => out.push(0u8),
        WasmAbstractValue::Const(c) => {
            out.push(1u8);
            put_u64(out, c);
        },
    }
    assert(out@ =~= start + wasm_value_bytes(w));
}

/// Reads an abstract wasm value at `pos`.
pub fn read_wasm_value(buf: &[u8], pos: usize) -> (r: Result<(WasmAbstractValue, usize), CacheError>)
    requires
        pos <= buf@.len(),
    ensures
        match parse_wasm_value(rest(buf@, pos as int)) {
            Ok((w, n)) => r matches Ok((x, p)) && x == w && p == pos + n && p <= buf@.len(),
            Err(e) => r == Err::<(WasmAbstractValue, usize), CacheError>(e),
        },
{
    let ghost s = rest(buf@, pos as int);
    if pos >= buf.len() {
        return Err(CacheError::TruncatedInput);
    }
    let t = buf[pos];
    let p = pos + 1;
    assert(s.subrange(1, s.len() as int) =~= rest(buf@, p as int));
    if t == 0 {
        Ok((WasmAbstractValue::Runtime, p))
    } else if t == 1 {
        match read_u64(buf, p) {
            Ok((c, p2)) => Ok((WasmAbstractValue::Const(c), p2)),
            Err(e) => Err(e),
        }
    } else {
        Err(CacheError::UnknownVariant)
    }
}

pub proof fn lemma_wasm_value_round_trip(w: WasmAbstractValue, tail: Seq<u8>)
    ensures
        parse_wasm_value(wasm_value_bytes(w) + tail) == Ok::<(WasmAbstractValue, nat), CacheError>(
            (w, wasm_value_bytes(w).len()),
        ),
{
    let s = wasm_value_bytes(w) + tail;
    if let WasmAbstractValue::Const(c) = w {
        assert(s.subrange(1, s.len() as int) =~= le_u64(c) + tail);
        lemma_u64_round_trip(c, tail);
    }
}

/// The discriminant byte of a safepoint kind.
pub open spec fn suspend_tag(o: SuspendOffset) -> u8 {
    match o {
        SuspendOffset::Loop(_) => 0,
        SuspendOffset::Call(_) => 1,
        SuspendOffset::Trappable(_) => 2,
    }
}

/// The code offset of a safepoint.
pub open spec fn suspend_at(o: SuspendOffset) -> usize {
    match o {
        SuspendOffset::Loop(x) => x,
        SuspendOffset::Call(x) => x,
        SuspendOffset::Trappable(x) => x,
    }
}

/// The encoding of a safepoint: its discriminant, then its offset.
pub open spec fn suspend_bytes(o: SuspendOffset) -> Seq<u8> {
    seq![suspend_tag(o)] + le_usize(suspend_at(o))
}

/// Reads a safepoint at the front of `s`.
pub open spec fn parse_suspend(s: Seq<u8>) -> Result<(SuspendOffset, nat), CacheError> {
    if s.len() < 1 {
        Err(CacheError::TruncatedInput)
    } else if s[0] > 2 {
        Err(CacheError::UnknownVariant)
    } else {
        match parse_usize(s.subrange(1, s.len() as int)) {
            Ok((x, k)) => Ok(
                (
                    if s[0] == 0 {
                        SuspendOffset::Loop(x)
                    } else if s[0] == 1 {
                        SuspendOffset::Call(x)
                    } else {
                        SuspendOffset::Trappable(x)
                    },
                    1 + k,
                ),
            ),
            Err(e) => Err(e),
        }
    }
}

/// Appends the encoding of `o`.
pub fn write_suspend(out: &mut Vec<u8>, o: SuspendOffset)
    ensures
        final(out)@ == old(out)@ + suspend_bytes(o),
{
    let ghost start = out@;
    let (t, x) = match o {
        SuspendOffset::Loop(x) => (0u8, x),
        SuspendOffset::Call(x) => (1u8, x),
        SuspendOffset::Trappable(x) => (2u8, x),
    };
    out.push(t);
    write_usize(out, x);
    assert(out@ =~= start + suspend_bytes(o));
}

/// Reads a safepoint at `pos`.
pub fn read_suspend(buf: &[u8], pos: usize) -> (r: Result<(SuspendOffset, usize), CacheError>)
    requires
        pos <= buf@.len(),
    ensures
        match parse_suspend(rest(buf@, pos as int)) {
            Ok((o, n)) => r matches Ok((x, p)) && x == o && p == pos + n && p <= buf@.len(),
            Err(e) => r == Err::<(SuspendOffset, usize), CacheError>(e),
        },
{
    let ghost s = rest(buf@, pos as int);
    if pos >= buf.len() {
        return Err(CacheError::TruncatedInput);
    }
    let t = buf[pos];
    let p = pos + 1;
    assert(s.subrange(1, s.len() as int) =~= rest(buf@, p as int));
    if t > 2 {
        return Err(CacheError::UnknownVariant);
    }
    match read_usize(buf, p) {
        Ok((x, p2)) => {
            let o = if t == 0 {
                SuspendOffset::Loop(x)
            } else if t == 1 {
                SuspendOffset::Call(x)
            } else {
                SuspendOffset::Trappable(x)
            };
            Ok((o, p2))
        },
        Err(e) => Err(e),
    }
}

pub proof fn lemma_suspend_round_trip(o: SuspendOffset, tail: Seq<u8>)
    ensures
        parse_suspend(suspend_bytes(o) + tail) == Ok::<(SuspendOffset, nat), CacheError>(
            (o, suspend_bytes(o).len()),
        ),
{
    let s = suspend_bytes(o) + tail;
    assert(s.subrange(1, s.len() as int) =~= le_usize(suspend_at(o)) + tail);
    lemma_usize_round_trip(suspend_at(o), tail);
}

/// The discriminant byte of a trap code.
pub open spec fn code_tag(c: ExceptionCode) -> u8 {
    match c {
        ExceptionCode::Unreachable => 0,
        ExceptionCode::IncorrectCallIndirectSignature => 1,
        ExceptionCode::MemoryOutOfBounds => 2,
        ExceptionCode::CallIndirectOOB => 3,
        ExceptionCode::IllegalArithmetic => 4,
        ExceptionCode::MisalignedAtomicAccess => 5,
    }
}

/// The trap code with discriminant `t`, if there is one.
pub open spec fn code_of_tag(t: u8) -> Option<ExceptionCode> {
    if t == 0 {
        Some(ExceptionCode::Unreachable)
    } else if t == 1 {
        Some(ExceptionCode::IncorrectCallIndirectSignature)
    } else if t == 2 {
        Some(ExceptionCode::MemoryOutOfBounds)
    } else if t == 3 {
        Some(ExceptionCode::CallIndirectOOB)
    } else if t == 4 {
        Some(ExceptionCode::IllegalArithmetic)
    } else if t == 5 {
        Some(ExceptionCode::MisalignedAtomicAccess)
    } else {
        None
    }
}

/// Reads a trap code at the front of `s`.
pub open spec fn parse_code(s: Seq<u8>) -> Result<(ExceptionCode, nat), CacheError> {
    if s.len() < 1 {
        Err(CacheError::TruncatedInput)
    } else {
        match code_of_tag(s[0]) {
            Some(c) => Ok((c, 1)),
            None => Err(CacheError::UnknownVariant),
        }
    }
}

impl ExceptionCode {
    /// The discriminant byte of this code.
    pub fn tag(self) -> (r: u8)
        ensures
            r == code_tag(self),
    {
        match self {
            ExceptionCode::Unreachable => 0,
            ExceptionCode::IncorrectCallIndirectSignature => 1,
            ExceptionCode::MemoryOutOfBounds => 2,
            ExceptionCode::CallIndirectOOB => 3,
            ExceptionCode::IllegalArithmetic => 4,
            ExceptionCode::MisalignedAtomicAccess => 5,
        }
    }

    /// The code with discriminant `t`; `None` for a byte no code has.
    pub fn from_tag(t: u8) -> (r: Option<ExceptionCode>)
        ensures
            r == code_of_tag(t),
    {
        if t == 0 {
            Some(ExceptionCode::Unreachable)
        } else if t == 1 {
            Some(ExceptionCode::IncorrectCallIndirectSignature)
        } else if t == 2 {
            Some(ExceptionCode::MemoryOutOfBounds)
        } else if t == 3 {
            Some(ExceptionCode::CallIndirectOOB)
        } else if t == 4 {
            Some(ExceptionCode::IllegalArithmetic)
        } else if t == 5 {
            Some(ExceptionCode::MisalignedAtomicAccess)
        } else {
            None
        }
    }
}

/// Reads a trap code at `pos`.
pub fn read_code(buf: &[u8], pos: usize) -> (r: Result<(ExceptionCode, usize), CacheError>)
    requires
        pos <= buf@.len(),
    ensures
        match parse_code(rest(buf@, pos as int)) {
            Ok((c, n)) => r matches Ok((x, p)) && x == c && p == pos + n && p <= buf@.len(),
            Err(e) => r == Err::<(ExceptionCode, usize), CacheError>(e),
        },
{
    if pos >= buf.len() {
        return Err(CacheError::TruncatedInput);
    }
    match ExceptionCode::from_tag(buf[pos]) {
        Some(c) => Ok((c, pos + 1)),
        None => Err(CacheError::UnknownVariant),
    }
}

pub proof fn lemma_code_round_trip(c: ExceptionCode, tail: Seq<u8>)
    ensures
        parse_code(seq![code_tag(c)] + tail) == Ok::<(ExceptionCode, nat), CacheError>((c, 1)),
{
    assert((seq![code_tag(c)] + tail)[0] == code_tag(c));
}

/// The encoding of an offset-index entry: its three fields in order.
pub open spec fn info_bytes(i: OffsetInfo) -> Seq<u8> {
    le_usize(i.end_offset) + le_usize(i.diff_id) + le_usize(i.activate_offset)
}

/// Reads an offset-index entry at the front of `s`.
pub open spec fn parse_info(s: Seq<u8>) -> Result<(OffsetInfo, nat), CacheError> {
    match parse_usize(s) {
        Ok((a, _)) => match parse_usize(s.subrange(8, s.len() as int)) {
            Ok((b, _)) => match parse_usize(s.subrange(16, s.len() as int)) {
                Ok((c, _)) => Ok(
                    (OffsetInfo { end_offset: a, diff_id: b, activate_offset: c }, 24),
                ),
                Err(e) => Err(e),
            },
            Err(e) => Err(e),
        },
        Err(e) => Err(e),
    }
}

/// Appends the encoding of `i`.
pub fn write_info(out: &mut Vec<u8>, i: OffsetInfo)
    ensures
        final(out)@ == old(out)@ + info_bytes(i),
{
    let ghost start = out@;
    write_usize(out, i.end_offset);
    write_usize(out, i.diff_id);
    write_usize(out, i.activate_offset);
    assert(out@ =~= start + info_bytes(i));
}

/// Reads an offset-index entry at `pos`.
pub fn read_info(buf: &[u8], pos: usize) -> (r: Result<(OffsetInfo, usize), CacheError>)
    requires
        pos <= buf@.len(),
    ensures
        match parse_info(rest(buf@, pos as int)) {
            Ok((i, n)) => r matches Ok((x, p)) && x == i && p == pos + n && p <= buf@.len(),
            Err(e) => r == Err::<(OffsetInfo, usize), CacheError>(e),
        },
{
    let ghost s = rest(buf@, pos as int);
    let (a, p1) = match read_usize(buf, pos) {
        Ok(x) => x,
        Err(e) => return Err(e),
    };
    assert(s.subrange(8, s.len() as int) =~= rest(buf@, p1 as int));
    let (b, p2) = match read_usize(buf, p1) {
        Ok(x) => x,
        Err(e) => return Err(e),
    };
    assert(s.subrange(16, s.len() as int) =~= rest(buf@, p2 as int));
    let (c, p3) = match read_usize(buf, p2) {
        Ok(x) => x,
        Err(e) => return Err(e),
    };
    Ok((OffsetInfo { end_offset: a, diff_id: b, activate_offset: c }, p3))
}

pub proof fn lemma_info_round_trip(i: OffsetInfo, tail: Seq<u8>)
    ensures
        parse_info(info_bytes(i) + tail) == Ok::<(OffsetInfo, nat), CacheError>((i, 24)),
{
    let s = info_bytes(i) + tail;
    assert(s =~= le_usize(i.end_offset) + (le_usize(i.diff_id) + le_usize(i.activate_offset)
        + tail));
    lemma_usize_round_trip(i.end_offset, le_usize(i.diff_id) + le_usize(i.activate_offset) + tail);
    assert(s.subrange(8, s.len() as int) =~= le_usize(i.diff_id) + (le_usize(i.activate_offset)
        + tail));
    lemma_usize_round_trip(i.diff_id, le_usize(i.activate_offset) + tail);
    assert(s.subrange(16, s.len() as int) =~= le_usize(i.activate_offset) + tail);
    lemma_usize_round_trip(i.activate_offset, tail);
}

} // verus!
