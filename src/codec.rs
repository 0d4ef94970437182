//! The binary form of checkpoints, diffs, function and module stack maps,
//! and the cache image that holds them with the code and the exception
//! table. Each record is its fields in order, each field self-delimiting;
//! maps are written in ascending key order and refused on reading when out
//! of order, and a diff must refer back to a strictly smaller index.

use crate::bytes::{rest, CacheError};
use crate::exception::{lemma_table_round_trip, parse_table, table_bytes, ExceptionTable};
use crate::function::{CacheImage, FunctionStateMap, ModuleStateMap};
use crate::keyed::{ascending, keys_ascending};
use crate::state::{MachineState, MachineStateDiff};
use crate::values::{
    ExceptionCode, MachineValue, OffsetInfo, RegisterIndex, SuspendOffset, ValueModel,
    WasmAbstractValue,
};
use crate::wire::{field, lemma_field_step, lemma_regroup, lemma_whole, read_at, wire_models, Wire};
use vstd::prelude::*;

verus! {

/// The keys of a list of keyed values are the keys of its models.
pub proof fn lemma_keys_models<T: Wire>(v: Seq<(usize, T)>)
    ensures
        keys_ascending(wire_models(v)) == keys_ascending(v),
{
    let w = wire_models(v);
    assert forall|i: int| 0 <= i < v.len() implies (#[trigger] w[i]).0 == v[i].0 by {
        assert(w[i] == v[i].wire_model());
    }
    if keys_ascending(v) {
        assert forall|i: int, j: int| 0 <= i < j < w.len() implies w[i].0 < w[j].0 by {
            assert(w[i].0 == v[i].0);
            assert(w[j].0 == v[j].0);
        }
    }
    if keys_ascending(w) {
        assert forall|i: int, j: int| 0 <= i < j < v.len() implies v[i].0 < v[j].0 by {
            assert(w[i].0 == v[i].0);
            assert(w[j].0 == v[j].0);
        }
    }
}

/// Every diff that follows another refers to a strictly smaller index.
pub open spec fn links_back(ds: Seq<DiffWire>) -> bool {
    forall|i: int|
        0 <= i < ds.len() ==> match (#[trigger] ds[i]).last {
            Some(l) => l < i,
            None => true,
        }
}

/// Whether every diff of `ds` that follows another refers to a strictly
/// smaller index.
pub fn diffs_link_back(ds: &Vec<MachineStateDiff>) -> (r: bool)
    ensures
        r == links_back(wire_models(ds@)),
{
    let ghost w = wire_models(ds@);
    let mut i: usize = 0;
    while i < ds.len()
        invariant
            i <= ds@.len(),
            w == wire_models(ds@),
            forall|j: int|
                0 <= j < i ==> match (#[trigger] w[j]).last {
                    Some(l) => l < j,
                    None => true,
                },
        decreases ds@.len() - i,
    {
        assert(w[i as int] == ds@[i as int].wire_model());
        match ds[i].last {
            Some(l) => {
                if l >= i {
                    return false;
                }
            },
            None => {},
        }
        i = i + 1;
    }
    true
}

impl Wire for ExceptionTable {
    type Model = Seq<(usize, ExceptionCode)>;

    open spec fn wire_model(&self) -> Seq<(usize, ExceptionCode)> {
        self.offset_to_code@
    }

    open spec fn wire_ok(&self) -> bool {
        self.wf() && self.offset_to_code@.len() <= u32::MAX
    }

    open spec fn model_fits(m: Seq<(usize, ExceptionCode)>) -> bool {
        m.len() <= u32::MAX && keys_ascending(m)
    }

    open spec fn model_bytes(m: Seq<(usize, ExceptionCode)>) -> Seq<u8> {
        table_bytes(m)
    }

    open spec fn parse_model(s: Seq<u8>) -> Result<(Seq<(usize, ExceptionCode)>, nat), CacheError> {
        parse_table(s)
    }

    fn write(&self, out: &mut Vec<u8>) {
        self.encode(out);
    }

    fn read(buf: &[u8], pos: usize) -> (r: Result<(ExceptionTable, usize), CacheError>) {
        ExceptionTable::decode(buf, pos)
    }

    proof fn lemma_fits(x: &ExceptionTable) {
    }

    proof fn lemma_round_trip(m: Seq<(usize, ExceptionCode)>, tail: Seq<u8>) {
        lemma_table_round_trip(m, tail);
    }
}

impl CacheImage {
    /// The module's maps and the exception table are well formed, every list
    /// fits a `u32` count, and there is one entry offset per entry pointer.
    pub open spec fn wf(&self) -> bool {
        self.wire_ok()
    }

    /// The encoded form of this image.
    pub open spec fn model(&self) -> ImageWire {
        self.wire_model()
    }

    /// Appends the encoding of this image: the code, the entry pointers, the
    /// entry offsets, the import count as a `u64`, the module's stack maps
    /// and the exception table.
    pub fn encode(&self, out: &mut Vec<u8>)
        requires
            self.wf(),
        ensures
            final(out)@ == old(out)@ + image_bytes(self.model()),
    {
        self.write(out);
    }

    /// Reads an image at `pos`, returning it with the position after it.
    pub fn decode(buf: &[u8], pos: usize) -> (r: Result<(CacheImage, usize), CacheError>)
        requires
            pos <= buf@.len(),
        ensures
            match parse_image(rest(buf@, pos as int)) {
                Ok((m, n)) => r matches Ok((c, p)) && c.model() == m && c.wf() && p == pos + n
                    && p <= buf@.len(),
                Err(e) => r == Err::<(CacheImage, usize), CacheError>(e),
            },
    {
        CacheImage::read(buf, pos)
    }

    /// Whether the recorded total size equals the length of the code. A
    /// decoded image is not held to this: a caller that treats a mismatch as
    /// fatal asks here.
    pub fn check_total_size(&self) -> (r: Result<(), CacheError>)
        ensures
            self.msm.total_size == self.code@.len() ==> r == Ok::<(), CacheError>(()),
            self.msm.total_size != self.code@.len() ==> r == Err::<(), CacheError>(
                CacheError::SizeMismatch,
            ),
    {
        if self.msm.total_size == self.code.len() {
            Ok(())
        } else {
            Err(CacheError::SizeMismatch)
        }
    }
}

/// The encoding of an image.
pub open spec fn image_bytes(m: ImageWire) -> Seq<u8> {
    <CacheImage as Wire>::model_bytes(m)
}

/// Reads an image at the front of `s`.
pub open spec fn parse_image(s: Seq<u8>) -> Result<(ImageWire, nat), CacheError> {
    <CacheImage as Wire>::parse_model(s)
}

/// An image that fits the format.
pub open spec fn image_fits(m: ImageWire) -> bool {
    <CacheImage as Wire>::model_fits(m)
}

/// An image read back from its encoding is the one written.
pub proof fn lemma_image_round_trip(m: ImageWire, tail: Seq<u8>)
    requires
        image_fits(m),
    ensures
        parse_image(image_bytes(m) + tail) == Ok::<(ImageWire, nat), CacheError>(
            (m, image_bytes(m).len()),
        ),
{
    <CacheImage as Wire>::lemma_round_trip(m, tail);
}

/// A module's stack maps read back from their encoding are the ones written.
pub proof fn lemma_module_round_trip(m: ModuleWire, tail: Seq<u8>)
    requires
        <ModuleStateMap as Wire>::model_fits(m),
    ensures
        <ModuleStateMap as Wire>::parse_model(<ModuleStateMap as Wire>::model_bytes(m) + tail)
            == Ok::<(ModuleWire, nat), CacheError>(
            (m, <ModuleStateMap as Wire>::model_bytes(m).len()),
        ),
{
    <ModuleStateMap as Wire>::lemma_round_trip(m, tail);
}

/// The encoded form of a [`MachineState`]: its fields in order.
pub struct StateWire {
    pub stack_values: Seq<ValueModel>,
    pub register_values: Seq<ValueModel>,
    pub prev_frame: Seq<(usize, ValueModel)>,
    pub wasm_stack: Seq<WasmAbstractValue>,
    pub wasm_stack_private_depth: usize,
    pub wasm_inst_offset: usize,
}

impl Wire for MachineState {
    type Model = StateWire;

    open spec fn wire_model(&self) -> StateWire {
        StateWire {
            stack_values: self.stack_values.wire_model(),
            register_values: self.register_values.wire_model(),
            prev_frame: self.prev_frame.wire_model(),
            wasm_stack: self.wasm_stack.wire_model(),
            wasm_stack_private_depth: self.wasm_stack_private_depth.wire_model(),
            wasm_inst_offset: self.wasm_inst_offset.wire_model(),
        }
    }

    open spec fn wire_ok(&self) -> bool {
        self.wf()
        && self.stack_values.wire_ok()
        && self.register_values.wire_ok()
        && self.prev_frame.wire_ok()
        && self.wasm_stack.wire_ok()
        && self.wasm_stack_private_depth.wire_ok()
        && self.wasm_inst_offset.wire_ok()
    }

    open spec fn model_fits(m: StateWire) -> bool {
        <Vec<MachineValue> as Wire>::model_fits(m.stack_values)
        && <Vec<MachineValue> as Wire>::model_fits(m.register_values)
        && <Vec<(usize, MachineValue)> as Wire>::model_fits(m.prev_frame)
        && <Vec<WasmAbstractValue> as Wire>::model_fits(m.wasm_stack)
        && <usize as Wire>::model_fits(m.wasm_stack_private_depth)
        && <usize as Wire>::model_fits(m.wasm_inst_offset)
        && keys_ascending(m.prev_frame)
    }

    open spec fn model_bytes(m: StateWire) -> Seq<u8> {
        <Vec<MachineValue> as Wire>::model_bytes(m.stack_values) + (<Vec<MachineValue> as Wire>::model_bytes(m.register_values) + (<Vec<(usize, MachineValue)> as Wire>::model_bytes(m.prev_frame) + (<Vec<WasmAbstractValue> as Wire>::model_bytes(m.wasm_stack) + (<usize as Wire>::model_bytes(m.wasm_stack_private_depth) + (<usize as Wire>::model_bytes(m.wasm_inst_offset))))))
    }

    open spec fn parse_model(s: Seq<u8>) -> Result<(StateWire, nat), CacheError> {
        match field::<Vec<MachineValue>>(s, 0) {
            Ok((x0, k0)) => 
                match field::<Vec<MachineValue>>(s, k0) {
                    Ok((x1, k1)) => 
                        match field::<Vec<(usize, MachineValue)>>(s, k1) {
                            Ok((x2, k2)) => 
                                match field::<Vec<WasmAbstractValue>>(s, k2) {
                                    Ok((x3, k3)) => 
                                        match field::<usize>(s, k3) {
                                            Ok((x4, k4)) => 
                                                match field::<usize>(s, k4) {
                                                    Ok((x5, k5)) => 
                                                        if keys_ascending(x2) { Ok((StateWire { stack_values: x0, register_values: x1, prev_frame: x2, wasm_stack: x3, wasm_stack_private_depth: x4, wasm_inst_offset: x5 }, k5)) } else { Err(CacheError::UnorderedKeys) }
                                                    ,
                                                    Err(e) => Err(e),
                                                }
                                            ,
                                            Err(e) => Err(e),
                                        }
                                    ,
                                    Err(e) => Err(e),
                                }
                            ,
                            Err(e) => Err(e),
                        }
                    ,
                    Err(e) => Err(e),
                }
            ,
            Err(e) => Err(e),
        }
    }

    fn write(&self, out: &mut Vec<u8>) {
        let ghost y0 = out@;
        self.stack_values.write(out);
        let ghost y1 = out@;
        self.register_values.write(out);
        let ghost y2 = out@;
        self.prev_frame.write(out);
        let ghost y3 = out@;
        self.wasm_stack.write(out);
        let ghost y4 = out@;
        self.wasm_stack_private_depth.write(out);
        let ghost y5 = out@;
        self.wasm_inst_offset.write(out);
        let ghost y6 = out@;
        proof {
            let b0 = <Vec<MachineValue> as Wire>::model_bytes(self.stack_values.wire_model());
            let b1 = <Vec<MachineValue> as Wire>::model_bytes(self.register_values.wire_model());
            let b2 = <Vec<(usize, MachineValue)> as Wire>::model_bytes(self.prev_frame.wire_model());
            let b3 = <Vec<WasmAbstractValue> as Wire>::model_bytes(self.wasm_stack.wire_model());
            let b4 = <usize as Wire>::model_bytes(self.wasm_stack_private_depth.wire_model());
            let b5 = <usize as Wire>::model_bytes(self.wasm_inst_offset.wire_model());
            let x5 = b5;
            let x4 = b4 + x5;
            let x3 = b3 + x4;
            let x2 = b2 + x3;
            let x1 = b1 + x2;
            let x0 = b0 + x1;
            lemma_regroup(y4, b4, x5);
            lemma_regroup(y3, b3, x4);
            lemma_regroup(y2, b2, x3);
            lemma_regroup(y1, b1, x2);
            lemma_regroup(y0, b0, x1);
        }
    }

    #[verifier::rlimit(100)]
    #[verifier::spinoff_prover]
    fn read(buf: &[u8], pos: usize) -> (r: Result<(MachineState, usize), CacheError>) {
        let (x0, p0) = match read_at::<Vec<MachineValue>>(buf, pos, pos) {
            Ok(x) => x,
            Err(e) => return Err(e),
        };
        let (x1, p1) = match read_at::<Vec<MachineValue>>(buf, pos, p0) {
            Ok(x) => x,
            Err(e) => return Err(e),
        };
        let (x2, p2) = match read_at::<Vec<(usize, MachineValue)>>(buf, pos, p1) {
            Ok(x) => x,
            Err(e) => return Err(e),
        };
        let (x3, p3) = match read_at::<Vec<WasmAbstractValue>>(buf, pos, p2) {
            Ok(x) => x,
            Err(e) => return Err(e),
        };
        let (x4, p4) = match read_at::<usize>(buf, pos, p3) {
            Ok(x) => x,
            Err(e) => return Err(e),
        };
        let (x5, p5) = match read_at::<usize>(buf, pos, p4) {
            Ok(x) => x,
            Err(e) => return Err(e),
        };
        proof {
            lemma_keys_models(x2@);
        }
        if !ascending(&x2) {
            return Err(CacheError::UnorderedKeys);
        }
        Ok((MachineState { stack_values: x0, register_values: x1, prev_frame: x2, wasm_stack: x3, wasm_stack_private_depth: x4, wasm_inst_offset: x5 }, p5))
    }

    proof fn lemma_fits(x: &MachineState) {
        <Vec<MachineValue> as Wire>::lemma_fits(&x.stack_values);
        <Vec<MachineValue> as Wire>::lemma_fits(&x.register_values);
        <Vec<(usize, MachineValue)> as Wire>::lemma_fits(&x.prev_frame);
        lemma_keys_models(x.prev_frame@);
        <Vec<WasmAbstractValue> as Wire>::lemma_fits(&x.wasm_stack);
        <usize as Wire>::lemma_fits(&x.wasm_stack_private_depth);
        <usize as Wire>::lemma_fits(&x.wasm_inst_offset);
    }

    #[verifier::rlimit(100)]
    #[verifier::spinoff_prover]
    proof fn lemma_round_trip(m: StateWire, tail: Seq<u8>) {
        let b0 = <Vec<MachineValue> as Wire>::model_bytes(m.stack_values);
        let b1 = <Vec<MachineValue> as Wire>::model_bytes(m.register_values);
        let b2 = <Vec<(usize, MachineValue)> as Wire>::model_bytes(m.prev_frame);
        let b3 = <Vec<WasmAbstractValue> as Wire>::model_bytes(m.wasm_stack);
        let b4 = <usize as Wire>::model_bytes(m.wasm_stack_private_depth);
        let b5 = <usize as Wire>::model_bytes(m.wasm_inst_offset);
        let x5 = b5;
        let x4 = b4 + x5;
        let x3 = b3 + x4;
        let x2 = b2 + x3;
        let x1 = b1 + x2;
        let x0 = b0 + x1;
        let s = Self::model_bytes(m) + tail;
        lemma_whole(s);
        lemma_regroup(b0, x1, tail);
        lemma_field_step::<Vec<MachineValue>>(s, 0, m.stack_values, x1 + tail);
        let k1 = 0 + b0.len();
        lemma_regroup(b1, x2, tail);
        lemma_field_step::<Vec<MachineValue>>(s, k1, m.register_values, x2 + tail);
        let k2 = k1 + b1.len();
        lemma_regroup(b2, x3, tail);
        lemma_field_step::<Vec<(usize, MachineValue)>>(s, k2, m.prev_frame, x3 + tail);
        let k3 = k2 + b2.len();
        lemma_regroup(b3, x4, tail);
        lemma_field_step::<Vec<WasmAbstractValue>>(s, k3, m.wasm_stack, x4 + tail);
        let k4 = k3 + b3.len();
        lemma_regroup(b4, x5, tail);
        lemma_field_step::<usize>(s, k4, m.wasm_stack_private_depth, x5 + tail);
        let k5 = k4 + b4.len();
        lemma_field_step::<usize>(s, k5, m.wasm_inst_offset, tail);
        let k6 = k5 + b5.len();
        assert(m == StateWire { stack_values: m.stack_values, register_values: m.register_values, prev_frame: m.prev_frame, wasm_stack: m.wasm_stack, wasm_stack_private_depth: m.wasm_stack_private_depth, wasm_inst_offset: m.wasm_inst_offset });
        assert(s.len() == k6 + tail.len());
    }
}

/// The encoded form of a [`MachineStateDiff`]: its fields in order.
pub struct DiffWire {
    pub last: Option<usize>,
    pub stack_push: Seq<ValueModel>,
    pub stack_pop: usize,
    pub reg_diff: Seq<(usize, ValueModel)>,
    pub prev_frame_diff: Seq<(usize, Option<ValueModel>)>,
    pub wasm_stack_push: Seq<WasmAbstractValue>,
    pub wasm_stack_pop: usize,
    pub wasm_stack_private_depth: usize,
    pub wasm_inst_offset: usize,
}

impl Wire for MachineStateDiff {
    type Model = DiffWire;

    open spec fn wire_model(&self) -> DiffWire {
        DiffWire {
            last: self.last.wire_model(),
            stack_push: self.stack_push.wire_model(),
            stack_pop: self.stack_pop.wire_model(),
            reg_diff: self.reg_diff.wire_model(),
            prev_frame_diff: self.prev_frame_diff.wire_model(),
            wasm_stack_push: self.wasm_stack_push.wire_model(),
            wasm_stack_pop: self.wasm_stack_pop.wire_model(),
            wasm_stack_private_depth: self.wasm_stack_private_depth.wire_model(),
            wasm_inst_offset: self.wasm_inst_offset.wire_model(),
        }
    }

    open spec fn wire_ok(&self) -> bool {
        self.last.wire_ok()
        && self.stack_push.wire_ok()
        && self.stack_pop.wire_ok()
        && self.reg_diff.wire_ok()
        && self.prev_frame_diff.wire_ok()
        && self.wasm_stack_push.wire_ok()
        && self.wasm_stack_pop.wire_ok()
        && self.wasm_stack_private_depth.wire_ok()
        && self.wasm_inst_offset.wire_ok()
    }

    open spec fn model_fits(m: DiffWire) -> bool {
        <Option<usize> as Wire>::model_fits(m.last)
        && <Vec<MachineValue> as Wire>::model_fits(m.stack_push)
        && <usize as Wire>::model_fits(m.stack_pop)
        && <Vec<(RegisterIndex, MachineValue)> as Wire>::model_fits(m.reg_diff)
        && <Vec<(usize, Option<MachineValue>)> as Wire>::model_fits(m.prev_frame_diff)
        && <Vec<WasmAbstractValue> as Wire>::model_fits(m.wasm_stack_push)
        && <usize as Wire>::model_fits(m.wasm_stack_pop)
        && <usize as Wire>::model_fits(m.wasm_stack_private_depth)
        && <usize as Wire>::model_fits(m.wasm_inst_offset)
    }

    open spec fn model_bytes(m: DiffWire) -> Seq<u8> {
        <Option<usize> as Wire>::model_bytes(m.last) + (<Vec<MachineValue> as Wire>::model_bytes(m.stack_push) + (<usize as Wire>::model_bytes(m.stack_pop) + (<Vec<(RegisterIndex, MachineValue)> as Wire>::model_bytes(m.reg_diff) + (<Vec<(usize, Option<MachineValue>)> as Wire>::model_bytes(m.prev_frame_diff) + (<Vec<WasmAbstractValue> as Wire>::model_bytes(m.wasm_stack_push) + (<usize as Wire>::model_bytes(m.wasm_stack_pop) + (<usize as Wire>::model_bytes(m.wasm_stack_private_depth) + (<usize as Wire>::model_bytes(m.wasm_inst_offset)))))))))
    }

    open spec fn parse_model(s: Seq<u8>) -> Result<(DiffWire, nat), CacheError> {
        match field::<Option<usize>>(s, 0) {
            Ok((x0, k0)) => 
                match field::<Vec<MachineValue>>(s, k0) {
                    Ok((x1, k1)) => 
                        match field::<usize>(s, k1) {
                            Ok((x2, k2)) => 
                                match field::<Vec<(RegisterIndex, MachineValue)>>(s, k2) {
                                    Ok((x3, k3)) => 
                                        match field::<Vec<(usize, Option<MachineValue>)>>(s, k3) {
                                            Ok((x4, k4)) => 
                                                match field::<Vec<WasmAbstractValue>>(s, k4) {
                                                    Ok((x5, k5)) => 
                                                        match field::<usize>(s, k5) {
                                                            Ok((x6, k6)) => 
                                                                match field::<usize>(s, k6) {
                                                                    Ok((x7, k7)) => 
                                                                        match field::<usize>(s, k7) {
                                                                            Ok((x8, k8)) => 
                                                                                Ok((DiffWire { last: x0, stack_push: x1, stack_pop: x2, reg_diff: x3, prev_frame_diff: x4, wasm_stack_push: x5, wasm_stack_pop: x6, wasm_stack_private_depth: x7, wasm_inst_offset: x8 }, k8))
                                                                            ,
                                                                            Err(e) => Err(e),
                                                                        }
                                                                    ,
                                                                    Err(e) => Err(e),
                                                                }
                                                            ,
                                                            Err(e) => Err(e),
                                                        }
                                                    ,
                                                    Err(e) => Err(e),
                                                }
                                            ,
                                            Err(e) => Err(e),
                                        }
                                    ,
                                    Err(e) => Err(e),
                                }
                            ,
                            Err(e) => Err(e),
                        }
                    ,
                    Err(e) => Err(e),
                }
            ,
            Err(e) => Err(e),
        }
    }

    fn write(&self, out: &mut Vec<u8>) {
        let ghost y0 = out@;
        self.last.write(out);
        let ghost y1 = out@;
        self.stack_push.write(out);
        let ghost y2 = out@;
        self.stack_pop.write(out);
        let ghost y3 = out@;
        self.reg_diff.write(out);
        let ghost y4 = out@;
        self.prev_frame_diff.write(out);
        let ghost y5 = out@;
        self.wasm_stack_push.write(out);
        let ghost y6 = out@;
        self.wasm_stack_pop.write(out);
        let ghost y7 = out@;
        self.wasm_stack_private_depth.write(out);
        let ghost y8 = out@;
        self.wasm_inst_offset.write(out);
        let ghost y9 = out@;
        proof {
            let b0 = <Option<usize> as Wire>::model_bytes(self.last.wire_model());
            let b1 = <Vec<MachineValue> as Wire>::model_bytes(self.stack_push.wire_model());
            let b2 = <usize as Wire>::model_bytes(self.stack_pop.wire_model());
            let b3 = <Vec<(RegisterIndex, MachineValue)> as Wire>::model_bytes(self.reg_diff.wire_model());
            let b4 = <Vec<(usize, Option<MachineValue>)> as Wire>::model_bytes(self.prev_frame_diff.wire_model());
            let b5 = <Vec<WasmAbstractValue> as Wire>::model_bytes(self.wasm_stack_push.wire_model());
            let b6 = <usize as Wire>::model_bytes(self.wasm_stack_pop.wire_model());
            let b7 = <usize as Wire>::model_bytes(self.wasm_stack_private_depth.wire_model());
            let b8 = <usize as Wire>::model_bytes(self.wasm_inst_offset.wire_model());
            let x8 = b8;
            let x7 = b7 + x8;
            let x6 = b6 + x7;
            let x5 = b5 + x6;
            let x4 = b4 + x5;
            let x3 = b3 + x4;
            let x2 = b2 + x3;
            let x1 = b1 + x2;
            let x0 = b0 + x1;
            lemma_regroup(y7, b7, x8);
            lemma_regroup(y6, b6, x7);
            lemma_regroup(y5, b5, x6);
            lemma_regroup(y4, b4, x5);
            lemma_regroup(y3, b3, x4);
            lemma_regroup(y2, b2, x3);
            lemma_regroup(y1, b1, x2);
            lemma_regroup(y0, b0, x1);
        }
    }

    #[verifier::rlimit(100)]
    #[verifier::spinoff_prover]
    fn read(buf: &[u8], pos: usize) -> (r: Result<(MachineStateDiff, usize), CacheError>) {
        let (x0, p0) = match read_at::<Option<usize>>(buf, pos, pos) {
            Ok(x) => x,
            Err(e) => return Err(e),
        };
        let (x1, p1) = match read_at::<Vec<MachineValue>>(buf, pos, p0) {
            Ok(x) => x,
            Err(e) => return Err(e),
        };
        let (x2, p2) = match read_at::<usize>(buf, pos, p1) {
            Ok(x) => x,
            Err(e) => return Err(e),
        };
        let (x3, p3) = match read_at::<Vec<(RegisterIndex, MachineValue)>>(buf, pos, p2) {
            Ok(x) => x,
            Err(e) => return Err(e),
        };
        let (x4, p4) = match read_at::<Vec<(usize, Option<MachineValue>)>>(buf, pos, p3) {
            Ok(x) => x,
            Err(e) => return Err(e),
        };
        let (x5, p5) = match read_at::<Vec<WasmAbstractValue>>(buf, pos, p4) {
            Ok(x) => x,
            Err(e) => return Err(e),
        };
        let (x6, p6) = match read_at::<usize>(buf, pos, p5) {
            Ok(x) => x,
            Err(e) => return Err(e),
        };
        let (x7, p7) = match read_at::<usize>(buf, pos, p6) {
            Ok(x) => x,
            Err(e) => return Err(e),
        };
        let (x8, p8) = match read_at::<usize>(buf, pos, p7) {
            Ok(x) => x,
            Err(e) => return Err(e),
        };
        Ok((MachineStateDiff { last: x0, stack_push: x1, stack_pop: x2, reg_diff: x3, prev_frame_diff: x4, wasm_stack_push: x5, wasm_stack_pop: x6, wasm_stack_private_depth: x7, wasm_inst_offset: x8 }, p8))
    }

    proof fn lemma_fits(x: &MachineStateDiff) {
        <Option<usize> as Wire>::lemma_fits(&x.last);
        <Vec<MachineValue> as Wire>::lemma_fits(&x.stack_push);
        <usize as Wire>::lemma_fits(&x.stack_pop);
        <Vec<(RegisterIndex, MachineValue)> as Wire>::lemma_fits(&x.reg_diff);
        <Vec<(usize, Option<MachineValue>)> as Wire>::lemma_fits(&x.prev_frame_diff);
        <Vec<WasmAbstractValue> as Wire>::lemma_fits(&x.wasm_stack_push);
        <usize as Wire>::lemma_fits(&x.wasm_stack_pop);
        <usize as Wire>::lemma_fits(&x.wasm_stack_private_depth);
        <usize as Wire>::lemma_fits(&x.wasm_inst_offset);
    }

    #[verifier::rlimit(100)]
    #[verifier::spinoff_prover]
    proof fn lemma_round_trip(m: DiffWire, tail: Seq<u8>) {
        let b0 = <Option<usize> as Wire>::model_bytes(m.last);
        let b1 = <Vec<MachineValue> as Wire>::model_bytes(m.stack_push);
        let b2 = <usize as Wire>::model_bytes(m.stack_pop);
        let b3 = <Vec<(RegisterIndex, MachineValue)> as Wire>::model_bytes(m.reg_diff);
        let b4 = <Vec<(usize, Option<MachineValue>)> as Wire>::model_bytes(m.prev_frame_diff);
        let b5 = <Vec<WasmAbstractValue> as Wire>::model_bytes(m.wasm_stack_push);
        let b6 = <usize as Wire>::model_bytes(m.wasm_stack_pop);
        let b7 = <usize as Wire>::model_bytes(m.wasm_stack_private_depth);
        let b8 = <usize as Wire>::model_bytes(m.wasm_inst_offset);
        let x8 = b8;
        let x7 = b7 + x8;
        let x6 = b6 + x7;
        let x5 = b5 + x6;
        let x4 = b4 + x5;
        let x3 = b3 + x4;
        let x2 = b2 + x3;
        let x1 = b1 + x2;
        let x0 = b0 + x1;
        let s = Self::model_bytes(m) + tail;
        lemma_whole(s);
        lemma_regroup(b0, x1, tail);
        lemma_field_step::<Option<usize>>(s, 0, m.last, x1 + tail);
        let k1 = 0 + b0.len();
        lemma_regroup(b1, x2, tail);
        lemma_field_step::<Vec<MachineValue>>(s, k1, m.stack_push, x2 + tail);
        let k2 = k1 + b1.len();
        lemma_regroup(b2, x3, tail);
        lemma_field_step::<usize>(s, k2, m.stack_pop, x3 + tail);
        let k3 = k2 + b2.len();
        lemma_regroup(b3, x4, tail);
        lemma_field_step::<Vec<(RegisterIndex, MachineValue)>>(s, k3, m.reg_diff, x4 + tail);
        let k4 = k3 + b3.len();
        lemma_regroup(b4, x5, tail);
        lemma_field_step::<Vec<(usize, Option<MachineValue>)>>(s, k4, m.prev_frame_diff, x5 + tail);
        let k5 = k4 + b4.len();
        lemma_regroup(b5, x6, tail);
        lemma_field_step::<Vec<WasmAbstractValue>>(s, k5, m.wasm_stack_push, x6 + tail);
        let k6 = k5 + b5.len();
        lemma_regroup(b6, x7, tail);
        lemma_field_step::<usize>(s, k6, m.wasm_stack_pop, x7 + tail);
        let k7 = k6 + b6.len();
        lemma_regroup(b7, x8, tail);
        lemma_field_step::<usize>(s, k7, m.wasm_stack_private_depth, x8 + tail);
        let k8 = k7 + b7.len();
        lemma_field_step::<usize>(s, k8, m.wasm_inst_offset, tail);
        let k9 = k8 + b8.len();
        assert(m == DiffWire { last: m.last, stack_push: m.stack_push, stack_pop: m.stack_pop, reg_diff: m.reg_diff, prev_frame_diff: m.prev_frame_diff, wasm_stack_push: m.wasm_stack_push, wasm_stack_pop: m.wasm_stack_pop, wasm_stack_private_depth: m.wasm_stack_private_depth, wasm_inst_offset: m.wasm_inst_offset });
        assert(s.len() == k9 + tail.len());
    }
}

/// The encoded form of a [`FunctionStateMap`]: its fields in order.
pub struct FunctionWire {
    pub initial: StateWire,
    pub local_function_id: usize,
    pub locals: Seq<WasmAbstractValue>,
    pub shadow_size: usize,
    pub diffs: Seq<DiffWire>,
    pub wasm_function_header_target_offset: Option<SuspendOffset>,
    pub wasm_offset_to_target_offset: Seq<(usize, SuspendOffset)>,
    pub loop_offsets: Seq<(usize, OffsetInfo)>,
    pub call_offsets: Seq<(usize, OffsetInfo)>,
    pub trappable_offsets: Seq<(usize, OffsetInfo)>,
}

impl Wire for FunctionStateMap {
    type Model = FunctionWire;

    open spec fn wire_model(&self) -> FunctionWire {
        FunctionWire {
            initial: self.initial.wire_model(),
            local_function_id: self.local_function_id.wire_model(),
            locals: self.locals.wire_model(),
            shadow_size: self.shadow_size.wire_model(),
            diffs: self.diffs.wire_model(),
            wasm_function_header_target_offset: self.wasm_function_header_target_offset.wire_model(),
            wasm_offset_to_target_offset: self.wasm_offset_to_target_offset.wire_model(),
            loop_offsets: self.loop_offsets.wire_model(),
            call_offsets: self.call_offsets.wire_model(),
            trappable_offsets: self.trappable_offsets.wire_model(),
        }
    }

    open spec fn wire_ok(&self) -> bool {
        self.wf()
        && links_back(self.diffs.wire_model())
        && self.initial.wire_ok()
        && self.local_function_id.wire_ok()
        && self.locals.wire_ok()
        && self.shadow_size.wire_ok()
        && self.diffs.wire_ok()
        && self.wasm_function_header_target_offset.wire_ok()
        && self.wasm_offset_to_target_offset.wire_ok()
        && self.loop_offsets.wire_ok()
        && self.call_offsets.wire_ok()
        && self.trappable_offsets.wire_ok()
    }

    open spec fn model_fits(m: FunctionWire) -> bool {
        <MachineState as Wire>::model_fits(m.initial)
        && <usize as Wire>::model_fits(m.local_function_id)
        && <Vec<WasmAbstractValue> as Wire>::model_fits(m.locals)
        && <usize as Wire>::model_fits(m.shadow_size)
        && <Vec<MachineStateDiff> as Wire>::model_fits(m.diffs)
        && <Option<SuspendOffset> as Wire>::model_fits(m.wasm_function_header_target_offset)
        && <Vec<(usize, SuspendOffset)> as Wire>::model_fits(m.wasm_offset_to_target_offset)
        && <Vec<(usize, OffsetInfo)> as Wire>::model_fits(m.loop_offsets)
        && <Vec<(usize, OffsetInfo)> as Wire>::model_fits(m.call_offsets)
        && <Vec<(usize, OffsetInfo)> as Wire>::model_fits(m.trappable_offsets)
        && keys_ascending(m.wasm_offset_to_target_offset)
        && keys_ascending(m.loop_offsets)
        && keys_ascending(m.call_offsets)
        && keys_ascending(m.trappable_offsets)
        && links_back(m.diffs)
    }

    open spec fn model_bytes(m: FunctionWire) -> Seq<u8> {
        <MachineState as Wire>::model_bytes(m.initial) + (<usize as Wire>::model_bytes(m.local_function_id) + (<Vec<WasmAbstractValue> as Wire>::model_bytes(m.locals) + (<usize as Wire>::model_bytes(m.shadow_size) + (<Vec<MachineStateDiff> as Wire>::model_bytes(m.diffs) + (<Option<SuspendOffset> as Wire>::model_bytes(m.wasm_function_header_target_offset) + (<Vec<(usize, SuspendOffset)> as Wire>::model_bytes(m.wasm_offset_to_target_offset) + (<Vec<(usize, OffsetInfo)> as Wire>::model_bytes(m.loop_offsets) + (<Vec<(usize, OffsetInfo)> as Wire>::model_bytes(m.call_offsets) + (<Vec<(usize, OffsetInfo)> as Wire>::model_bytes(m.trappable_offsets))))))))))
    }

    open spec fn parse_model(s: Seq<u8>) -> Result<(FunctionWire, nat), CacheError> {
        match field::<MachineState>(s, 0) {
            Ok((x0, k0)) => 
                match field::<usize>(s, k0) {
                    Ok((x1, k1)) => 
                        match field::<Vec<WasmAbstractValue>>(s, k1) {
                            Ok((x2, k2)) => 
                                match field::<usize>(s, k2) {
                                    Ok((x3, k3)) => 
                                        match field::<Vec<MachineStateDiff>>(s, k3) {
                                            Ok((x4, k4)) => 
                                                match field::<Option<SuspendOffset>>(s, k4) {
                                                    Ok((x5, k5)) => 
                                                        match field::<Vec<(usize, SuspendOffset)>>(s, k5) {
                                                            Ok((x6, k6)) => 
                                                                match field::<Vec<(usize, OffsetInfo)>>(s, k6) {
                                                                    Ok((x7, k7)) => 
                                                                        match field::<Vec<(usize, OffsetInfo)>>(s, k7) {
                                                                            Ok((x8, k8)) => 
                                                                                match field::<Vec<(usize, OffsetInfo)>>(s, k8) {
                                                                                    Ok((x9, k9)) => 
                                                                                        if links_back(x4) { if keys_ascending(x6) && keys_ascending(x7) && keys_ascending(x8) && keys_ascending(x9) { Ok((FunctionWire { initial: x0, local_function_id: x1, locals: x2, shadow_size: x3, diffs: x4, wasm_function_header_target_offset: x5, wasm_offset_to_target_offset: x6, loop_offsets: x7, call_offsets: x8, trappable_offsets: x9 }, k9)) } else { Err(CacheError::UnorderedKeys) } } else { Err(CacheError::DiffChainCorrupt) }
                                                                                    ,
                                                                                    Err(e) => Err(e),
                                                                                }
                                                                            ,
                                                                            Err(e) => Err(e),
                                                                        }
                                                                    ,
                                                                    Err(e) => Err(e),
                                                                }
                                                            ,
                                                            Err(e) => Err(e),
                                                        }
                                                    ,
                                                    Err(e) => Err(e),
                                                }
                                            ,
                                            Err(e) => Err(e),
                                        }
                                    ,
                                    Err(e) => Err(e),
                                }
                            ,
                            Err(e) => Err(e),
                        }
                    ,
                    Err(e) => Err(e),
                }
            ,
            Err(e) => Err(e),
        }
    }

    fn write(&self, out: &mut Vec<u8>) {
        let ghost y0 = out@;
        self.initial.write(out);
        let ghost y1 = out@;
        self.local_function_id.write(out);
        let ghost y2 = out@;
        self.locals.write(out);
        let ghost y3 = out@;
        self.shadow_size.write(out);
        let ghost y4 = out@;
        self.diffs.write(out);
        let ghost y5 = out@;
        self.wasm_function_header_target_offset.write(out);
        let ghost y6 = out@;
        self.wasm_offset_to_target_offset.write(out);
        let ghost y7 = out@;
        self.loop_offsets.write(out);
        let ghost y8 = out@;
        self.call_offsets.write(out);
        let ghost y9 = out@;
        self.trappable_offsets.write(out);
        let ghost y10 = out@;
        proof {
            let b0 = <MachineState as Wire>::model_bytes(self.initial.wire_model());
            let b1 = <usize as Wire>::model_bytes(self.local_function_id.wire_model());
            let b2 = <Vec<WasmAbstractValue> as Wire>::model_bytes(self.locals.wire_model());
            let b3 = <usize as Wire>::model_bytes(self.shadow_size.wire_model());
            let b4 = <Vec<MachineStateDiff> as Wire>::model_bytes(self.diffs.wire_model());
            let b5 = <Option<SuspendOffset> as Wire>::model_bytes(self.wasm_function_header_target_offset.wire_model());
            let b6 = <Vec<(usize, SuspendOffset)> as Wire>::model_bytes(self.wasm_offset_to_target_offset.wire_model());
            let b7 = <Vec<(usize, OffsetInfo)> as Wire>::model_bytes(self.loop_offsets.wire_model());
            let b8 = <Vec<(usize, OffsetInfo)> as Wire>::model_bytes(self.call_offsets.wire_model());
            let b9 = <Vec<(usize, OffsetInfo)> as Wire>::model_bytes(self.trappable_offsets.wire_model());
            let x9 = b9;
            let x8 = b8 + x9;
            let x7 = b7 + x8;
            let x6 = b6 + x7;
            let x5 = b5 + x6;
            let x4 = b4 + x5;
            let x3 = b3 + x4;
            let x2 = b2 + x3;
            let x1 = b1 + x2;
            let x0 = b0 + x1;
            lemma_regroup(y8, b8, x9);
            lemma_regroup(y7, b7, x8);
            lemma_regroup(y6, b6, x7);
            lemma_regroup(y5, b5, x6);
            lemma_regroup(y4, b4, x5);
            lemma_regroup(y3, b3, x4);
            lemma_regroup(y2, b2, x3);
            lemma_regroup(y1, b1, x2);
            lemma_regroup(y0, b0, x1);
        }
    }

    #[verifier::rlimit(100)]
    #[verifier::spinoff_prover]
    fn read(buf: &[u8], pos: usize) -> (r: Result<(FunctionStateMap, usize), CacheError>) {
        let (x0, p0) = match read_at::<MachineState>(buf, pos, pos) {
            Ok(x) => x,
            Err(e) => return Err(e),
        };
        let (x1, p1) = match read_at::<usize>(buf, pos, p0) {
            Ok(x) => x,
            Err(e) => return Err(e),
        };
        let (x2, p2) = match read_at::<Vec<WasmAbstractValue>>(buf, pos, p1) {
            Ok(x) => x,
            Err(e) => return Err(e),
        };
        let (x3, p3) = match read_at::<usize>(buf, pos, p2) {
            Ok(x) => x,
            Err(e) => return Err(e),
        };
        let (x4, p4) = match read_at::<Vec<MachineStateDiff>>(buf, pos, p3) {
            Ok(x) => x,
            Err(e) => return Err(e),
        };
        let (x5, p5) = match read_at::<Option<SuspendOffset>>(buf, pos, p4) {
            Ok(x) => x,
            Err(e) => return Err(e),
        };
        let (x6, p6) = match read_at::<Vec<(usize, SuspendOffset)>>(buf, pos, p5) {
            Ok(x) => x,
            Err(e) => return Err(e),
        };
        let (x7, p7) = match read_at::<Vec<(usize, OffsetInfo)>>(buf, pos, p6) {
            Ok(x) => x,
            Err(e) => return Err(e),
        };
        let (x8, p8) = match read_at::<Vec<(usize, OffsetInfo)>>(buf, pos, p7) {
            Ok(x) => x,
            Err(e) => return Err(e),
        };
        let (x9, p9) = match read_at::<Vec<(usize, OffsetInfo)>>(buf, pos, p8) {
            Ok(x) => x,
            Err(e) => return Err(e),
        };
        if !(diffs_link_back(&x4)) {
            return Err(CacheError::DiffChainCorrupt);
        }
        proof {
            lemma_keys_models(x6@);
        }
        if !ascending(&x6) {
            return Err(CacheError::UnorderedKeys);
        }
        proof {
            lemma_keys_models(x7@);
        }
        if !ascending(&x7) {
            return Err(CacheError::UnorderedKeys);
        }
        proof {
            lemma_keys_models(x8@);
        }
        if !ascending(&x8) {
            return Err(CacheError::UnorderedKeys);
        }
        proof {
            lemma_keys_models(x9@);
        }
        if !ascending(&x9) {
            return Err(CacheError::UnorderedKeys);
        }
        Ok((FunctionStateMap { initial: x0, local_function_id: x1, locals: x2, shadow_size: x3, diffs: x4, wasm_function_header_target_offset: x5, wasm_offset_to_target_offset: x6, loop_offsets: x7, call_offsets: x8, trappable_offsets: x9 }, p9))
    }

    proof fn lemma_fits(x: &FunctionStateMap) {
        <MachineState as Wire>::lemma_fits(&x.initial);
        <usize as Wire>::lemma_fits(&x.local_function_id);
        <Vec<WasmAbstractValue> as Wire>::lemma_fits(&x.locals);
        <usize as Wire>::lemma_fits(&x.shadow_size);
        <Vec<MachineStateDiff> as Wire>::lemma_fits(&x.diffs);
        <Option<SuspendOffset> as Wire>::lemma_fits(&x.wasm_function_header_target_offset);
        <Vec<(usize, SuspendOffset)> as Wire>::lemma_fits(&x.wasm_offset_to_target_offset);
        lemma_keys_models(x.wasm_offset_to_target_offset@);
        <Vec<(usize, OffsetInfo)> as Wire>::lemma_fits(&x.loop_offsets);
        lemma_keys_models(x.loop_offsets@);
        <Vec<(usize, OffsetInfo)> as Wire>::lemma_fits(&x.call_offsets);
        lemma_keys_models(x.call_offsets@);
        <Vec<(usize, OffsetInfo)> as Wire>::lemma_fits(&x.trappable_offsets);
        lemma_keys_models(x.trappable_offsets@);
    }

    #[verifier::rlimit(100)]
    #[verifier::spinoff_prover]
    proof fn lemma_round_trip(m: FunctionWire, tail: Seq<u8>) {
        let b0 = <MachineState as Wire>::model_bytes(m.initial);
        let b1 = <usize as Wire>::model_bytes(m.local_function_id);
        let b2 = <Vec<WasmAbstractValue> as Wire>::model_bytes(m.locals);
        let b3 = <usize as Wire>::model_bytes(m.shadow_size);
        let b4 = <Vec<MachineStateDiff> as Wire>::model_bytes(m.diffs);
        let b5 = <Option<SuspendOffset> as Wire>::model_bytes(m.wasm_function_header_target_offset);
        let b6 = <Vec<(usize, SuspendOffset)> as Wire>::model_bytes(m.wasm_offset_to_target_offset);
        let b7 = <Vec<(usize, OffsetInfo)> as Wire>::model_bytes(m.loop_offsets);
        let b8 = <Vec<(usize, OffsetInfo)> as Wire>::model_bytes(m.call_offsets);
        let b9 = <Vec<(usize, OffsetInfo)> as Wire>::model_bytes(m.trappable_offsets);
        let x9 = b9;
        let x8 = b8 + x9;
        let x7 = b7 + x8;
        let x6 = b6 + x7;
        let x5 = b5 + x6;
        let x4 = b4 + x5;
        let x3 = b3 + x4;
        let x2 = b2 + x3;
        let x1 = b1 + x2;
        let x0 = b0 + x1;
        let s = Self::model_bytes(m) + tail;
        lemma_whole(s);
        lemma_regroup(b0, x1, tail);
        lemma_field_step::<MachineState>(s, 0, m.initial, x1 + tail);
        let k1 = 0 + b0.len();
        lemma_regroup(b1, x2, tail);
        lemma_field_step::<usize>(s, k1, m.local_function_id, x2 + tail);
        let k2 = k1 + b1.len();
        lemma_regroup(b2, x3, tail);
        lemma_field_step::<Vec<WasmAbstractValue>>(s, k2, m.locals, x3 + tail);
        let k3 = k2 + b2.len();
        lemma_regroup(b3, x4, tail);
        lemma_field_step::<usize>(s, k3, m.shadow_size, x4 + tail);
        let k4 = k3 + b3.len();
        lemma_regroup(b4, x5, tail);
        lemma_field_step::<Vec<MachineStateDiff>>(s, k4, m.diffs, x5 + tail);
        let k5 = k4 + b4.len();
        lemma_regroup(b5, x6, tail);
        lemma_field_step::<Option<SuspendOffset>>(s, k5, m.wasm_function_header_target_offset, x6 + tail);
        let k6 = k5 + b5.len();
        lemma_regroup(b6, x7, tail);
        lemma_field_step::<Vec<(usize, SuspendOffset)>>(s, k6, m.wasm_offset_to_target_offset, x7 + tail);
        let k7 = k6 + b6.len();
        lemma_regroup(b7, x8, tail);
        lemma_field_step::<Vec<(usize, OffsetInfo)>>(s, k7, m.loop_offsets, x8 + tail);
        let k8 = k7 + b7.len();
        lemma_regroup(b8, x9, tail);
        lemma_field_step::<Vec<(usize, OffsetInfo)>>(s, k8, m.call_offsets, x9 + tail);
        let k9 = k8 + b8.len();
        lemma_field_step::<Vec<(usize, OffsetInfo)>>(s, k9, m.trappable_offsets, tail);
        let k10 = k9 + b9.len();
        assert(m == FunctionWire { initial: m.initial, local_function_id: m.local_function_id, locals: m.locals, shadow_size: m.shadow_size, diffs: m.diffs, wasm_function_header_target_offset: m.wasm_function_header_target_offset, wasm_offset_to_target_offset: m.wasm_offset_to_target_offset, loop_offsets: m.loop_offsets, call_offsets: m.call_offsets, trappable_offsets: m.trappable_offsets });
        assert(s.len() == k10 + tail.len());
    }
}

/// The encoded form of a [`ModuleStateMap`]: its fields in order.
pub struct ModuleWire {
    pub local_functions: Seq<(usize, FunctionWire)>,
    pub total_size: usize,
}

impl Wire for ModuleStateMap {
    type Model = ModuleWire;

    open spec fn wire_model(&self) -> ModuleWire {
        ModuleWire {
            local_functions: self.local_functions.wire_model(),
            total_size: self.total_size.wire_model(),
        }
    }

    open spec fn wire_ok(&self) -> bool {
        self.wf()
        && self.local_functions.wire_ok()
        && self.total_size.wire_ok()
    }

    open spec fn model_fits(m: ModuleWire) -> bool {
        <Vec<(usize, FunctionStateMap)> as Wire>::model_fits(m.local_functions)
        && <usize as Wire>::model_fits(m.total_size)
        && keys_ascending(m.local_functions)
    }

    open spec fn model_bytes(m: ModuleWire) -> Seq<u8> {
        <Vec<(usize, FunctionStateMap)> as Wire>::model_bytes(m.local_functions) + (<usize as Wire>::model_bytes(m.total_size))
    }

    open spec fn parse_model(s: Seq<u8>) -> Result<(ModuleWire, nat), CacheError> {
        match field::<Vec<(usize, FunctionStateMap)>>(s, 0) {
            Ok((x0, k0)) => 
                match field::<usize>(s, k0) {
                    Ok((x1, k1)) => 
                        if keys_ascending(x0) { Ok((ModuleWire { local_functions: x0, total_size: x1 }, k1)) } else { Err(CacheError::UnorderedKeys) }
                    ,
                    Err(e) => Err(e),
                }
            ,
            Err(e) => Err(e),
        }
    }

    fn write(&self, out: &mut Vec<u8>) {
        let ghost y0 = out@;
        self.local_functions.write(out);
        let ghost y1 = out@;
        self.total_size.write(out);
        let ghost y2 = out@;
        proof {
            let b0 = <Vec<(usize, FunctionStateMap)> as Wire>::model_bytes(self.local_functions.wire_model());
            let b1 = <usize as Wire>::model_bytes(self.total_size.wire_model());
            let x1 = b1;
            let x0 = b0 + x1;
            lemma_regroup(y0, b0, x1);
        }
    }

    #[verifier::rlimit(100)]
    #[verifier::spinoff_prover]
    fn read(buf: &[u8], pos: usize) -> (r: Result<(ModuleStateMap, usize), CacheError>) {
        let (x0, p0) = match read_at::<Vec<(usize, FunctionStateMap)>>(buf, pos, pos) {
            Ok(x) => x,
            Err(e) => return Err(e),
        };
        let (x1, p1) = match read_at::<usize>(buf, pos, p0) {
            Ok(x) => x,
            Err(e) => return Err(e),
        };
        proof {
            lemma_keys_models(x0@);
        }
        if !ascending(&x0) {
            return Err(CacheError::UnorderedKeys);
        }
        Ok((ModuleStateMap { local_functions: x0, total_size: x1 }, p1))
    }

    proof fn lemma_fits(x: &ModuleStateMap) {
        <Vec<(usize, FunctionStateMap)> as Wire>::lemma_fits(&x.local_functions);
        lemma_keys_models(x.local_functions@);
        <usize as Wire>::lemma_fits(&x.total_size);
    }

    #[verifier::rlimit(100)]
    #[verifier::spinoff_prover]
    proof fn lemma_round_trip(m: ModuleWire, tail: Seq<u8>) {
        let b0 = <Vec<(usize, FunctionStateMap)> as Wire>::model_bytes(m.local_functions);
        let b1 = <usize as Wire>::model_bytes(m.total_size);
        let x1 = b1;
        let x0 = b0 + x1;
        let s = Self::model_bytes(m) + tail;
        lemma_whole(s);
        lemma_regroup(b0, x1, tail);
        lemma_field_step::<Vec<(usize, FunctionStateMap)>>(s, 0, m.local_functions, x1 + tail);
        let k1 = 0 + b0.len();
        lemma_field_step::<usize>(s, k1, m.total_size, tail);
        let k2 = k1 + b1.len();
        assert(m == ModuleWire { local_functions: m.local_functions, total_size: m.total_size });
        assert(s.len() == k2 + tail.len());
    }
}

/// The encoded form of a [`CacheImage`]: its fields in order.
pub struct ImageWire {
    pub code: Seq<u8>,
    pub function_pointers: Seq<usize>,
    pub function_offsets: Seq<usize>,
    pub func_import_count: usize,
    pub msm: ModuleWire,
    pub exception_table: Seq<(usize, ExceptionCode)>,
}

impl Wire for CacheImage {
    type Model = ImageWire;

    open spec fn wire_model(&self) -> ImageWire {
        ImageWire {
            code: self.code.wire_model(),
            function_pointers: self.function_pointers.wire_model(),
            function_offsets: self.function_offsets.wire_model(),
            func_import_count: self.func_import_count.wire_model(),
            msm: self.msm.wire_model(),
            exception_table: self.exception_table.wire_model(),
        }
    }

    open spec fn wire_ok(&self) -> bool {
        self.msm.wf() && self.exception_table.wf()
        && self.function_pointers@.len() == self.function_offsets@.len()
        && self.code.wire_ok()
        && self.function_pointers.wire_ok()
        && self.function_offsets.wire_ok()
        && self.func_import_count.wire_ok()
        && self.msm.wire_ok()
        && self.exception_table.wire_ok()
    }

    open spec fn model_fits(m: ImageWire) -> bool {
        <Vec<u8> as Wire>::model_fits(m.code)
        && <Vec<usize> as Wire>::model_fits(m.function_pointers)
        && <Vec<usize> as Wire>::model_fits(m.function_offsets)
        && <usize as Wire>::model_fits(m.func_import_count)
        && <ModuleStateMap as Wire>::model_fits(m.msm)
        && <ExceptionTable as Wire>::model_fits(m.exception_table)
        && m.function_pointers.len() == m.function_offsets.len()
    }

    open spec fn model_bytes(m: ImageWire) -> Seq<u8> {
        <Vec<u8> as Wire>::model_bytes(m.code) + (<Vec<usize> as Wire>::model_bytes(m.function_pointers) + (<Vec<usize> as Wire>::model_bytes(m.function_offsets) + (<usize as Wire>::model_bytes(m.func_import_count) + (<ModuleStateMap as Wire>::model_bytes(m.msm) + (<ExceptionTable as Wire>::model_bytes(m.exception_table))))))
    }

    open spec fn parse_model(s: Seq<u8>) -> Result<(ImageWire, nat), CacheError> {
        match field::<Vec<u8>>(s, 0) {
            Ok((x0, k0)) => 
                match field::<Vec<usize>>(s, k0) {
                    Ok((x1, k1)) => 
                        match field::<Vec<usize>>(s, k1) {
                            Ok((x2, k2)) => 
                                match field::<usize>(s, k2) {
                                    Ok((x3, k3)) => 
                                        match field::<ModuleStateMap>(s, k3) {
                                            Ok((x4, k4)) => 
                                                match field::<ExceptionTable>(s, k4) {
                                                    Ok((x5, k5)) => 
                                                        if x1.len() == x2.len() { Ok((ImageWire { code: x0, function_pointers: x1, function_offsets: x2, func_import_count: x3, msm: x4, exception_table: x5 }, k5)) } else { Err(CacheError::SizeMismatch) }
                                                    ,
                                                    Err(e) => Err(e),
                                                }
                                            ,
                                            Err(e) => Err(e),
                                        }
                                    ,
                                    Err(e) => Err(e),
                                }
                            ,
                            Err(e) => Err(e),
                        }
                    ,
                    Err(e) => Err(e),
                }
            ,
            Err(e) => Err(e),
        }
    }

    fn write(&self, out: &mut Vec<u8>) {
        let ghost y0 = out@;
        self.code.write(out);
        let ghost y1 = out@;
        self.function_pointers.write(out);
        let ghost y2 = out@;
        self.function_offsets.write(out);
        let ghost y3 = out@;
        self.func_import_count.write(out);
        let ghost y4 = out@;
        self.msm.write(out);
        let ghost y5 = out@;
        self.exception_table.write(out);
        let ghost y6 = out@;
        proof {
            let b0 = <Vec<u8> as Wire>::model_bytes(self.code.wire_model());
            let b1 = <Vec<usize> as Wire>::model_bytes(self.function_pointers.wire_model());
            let b2 = <Vec<usize> as Wire>::model_bytes(self.function_offsets.wire_model());
            let b3 = <usize as Wire>::model_bytes(self.func_import_count.wire_model());
            let b4 = <ModuleStateMap as Wire>::model_bytes(self.msm.wire_model());
            let b5 = <ExceptionTable as Wire>::model_bytes(self.exception_table.wire_model());
            let x5 = b5;
            let x4 = b4 + x5;
            let x3 = b3 + x4;
            let x2 = b2 + x3;
            let x1 = b1 + x2;
            let x0 = b0 + x1;
            lemma_regroup(y4, b4, x5);
            lemma_regroup(y3, b3, x4);
            lemma_regroup(y2, b2, x3);
            lemma_regroup(y1, b1, x2);
            lemma_regroup(y0, b0, x1);
        }
    }

    #[verifier::rlimit(100)]
    #[verifier::spinoff_prover]
    fn read(buf: &[u8], pos: usize) -> (r: Result<(CacheImage, usize), CacheError>) {
        let (x0, p0) = match read_at::<Vec<u8>>(buf, pos, pos) {
            Ok(x) => x,
            Err(e) => return Err(e),
        };
        let (x1, p1) = match read_at::<Vec<usize>>(buf, pos, p0) {
            Ok(x) => x,
            Err(e) => return Err(e),
        };
        let (x2, p2) = match read_at::<Vec<usize>>(buf, pos, p1) {
            Ok(x) => x,
            Err(e) => return Err(e),
        };
        let (x3, p3) = match read_at::<usize>(buf, pos, p2) {
            Ok(x) => x,
            Err(e) => return Err(e),
        };
        let (x4, p4) = match read_at::<ModuleStateMap>(buf, pos, p3) {
            Ok(x) => x,
            Err(e) => return Err(e),
        };
        let (x5, p5) = match read_at::<ExceptionTable>(buf, pos, p4) {
            Ok(x) => x,
            Err(e) => return Err(e),
        };
        if !(x1.len() == x2.len()) {
            return Err(CacheError::SizeMismatch);
        }
        Ok((CacheImage { code: x0, function_pointers: x1, function_offsets: x2, func_import_count: x3, msm: x4, exception_table: x5 }, p5))
    }

    proof fn lemma_fits(x: &CacheImage) {
        <Vec<u8> as Wire>::lemma_fits(&x.code);
        <Vec<usize> as Wire>::lemma_fits(&x.function_pointers);
        <Vec<usize> as Wire>::lemma_fits(&x.function_offsets);
        <usize as Wire>::lemma_fits(&x.func_import_count);
        <ModuleStateMap as Wire>::lemma_fits(&x.msm);
        <ExceptionTable as Wire>::lemma_fits(&x.exception_table);
    }

    #[verifier::rlimit(100)]
    #[verifier::spinoff_prover]
    proof fn lemma_round_trip(m: ImageWire, tail: Seq<u8>) {
        let b0 = <Vec<u8> as Wire>::model_bytes(m.code);
        let b1 = <Vec<usize> as Wire>::model_bytes(m.function_pointers);
        let b2 = <Vec<usize> as Wire>::model_bytes(m.function_offsets);
        let b3 = <usize as Wire>::model_bytes(m.func_import_count);
        let b4 = <ModuleStateMap as Wire>::model_bytes(m.msm);
        let b5 = <ExceptionTable as Wire>::model_bytes(m.exception_table);
        let x5 = b5;
        let x4 = b4 + x5;
        let x3 = b3 + x4;
        let x2 = b2 + x3;
        let x1 = b1 + x2;
        let x0 = b0 + x1;
        let s = Self::model_bytes(m) + tail;
        lemma_whole(s);
        lemma_regroup(b0, x1, tail);
        lemma_field_step::<Vec<u8>>(s, 0, m.code, x1 + tail);
        let k1 = 0 + b0.len();
        lemma_regroup(b1, x2, tail);
        lemma_field_step::<Vec<usize>>(s, k1, m.function_pointers, x2 + tail);
        let k2 = k1 + b1.len();
        lemma_regroup(b2, x3, tail);
        lemma_field_step::<Vec<usize>>(s, k2, m.function_offsets, x3 + tail);
        let k3 = k2 + b2.len();
        lemma_regroup(b3, x4, tail);
        lemma_field_step::<usize>(s, k3, m.func_import_count, x4 + tail);
        let k4 = k3 + b3.len();
        lemma_regroup(b4, x5, tail);
        lemma_field_step::<ModuleStateMap>(s, k4, m.msm, x5 + tail);
        let k5 = k4 + b4.len();
        lemma_field_step::<ExceptionTable>(s, k5, m.exception_table, tail);
        let k6 = k5 + b5.len();
        assert(m == ImageWire { code: m.code, function_pointers: m.function_pointers, function_offsets: m.function_offsets, func_import_count: m.func_import_count, msm: m.msm, exception_table: m.exception_table });
        assert(s.len() == k6 + tail.len());
    }
}

} // verus!
