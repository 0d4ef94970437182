use stackmap_cache::bytes::CacheError;
use stackmap_cache::exception::ExceptionTable;
use stackmap_cache::function::{CacheImage, FunctionStateMap, ModuleStateMap};
use stackmap_cache::state::{MachineState, MachineStateDiff};
use stackmap_cache::values::{ExceptionCode, MachineValue, OffsetInfo, RegisterIndex, SuspendOffset, WasmAbstractValue};
use stackmap_cache::wire::Wire;

fn two_registers() -> MachineState {
    MachineState {
        stack_values: vec![],
        register_values: vec![MachineValue::Vmctx, MachineValue::PreserveRegister(RegisterIndex(3))],
        prev_frame: vec![],
        wasm_stack: vec![],
        wasm_stack_private_depth: 0,
        wasm_inst_offset: 0,
    }
}

fn slot_diff(last: Option<usize>) -> MachineStateDiff {
    MachineStateDiff {
        last,
        stack_push: vec![],
        stack_pop: 0,
        reg_diff: vec![],
        prev_frame_diff: vec![(4, Some(MachineValue::CopyStackBPRelative(-8)))],
        wasm_stack_push: vec![WasmAbstractValue::Const(1)],
        wasm_stack_pop: 0,
        wasm_stack_private_depth: 0,
        wasm_inst_offset: 7,
    }
}

fn one_function(diffs: Vec<MachineStateDiff>) -> FunctionStateMap {
    FunctionStateMap {
        initial: two_registers(),
        local_function_id: 0,
        locals: vec![WasmAbstractValue::Runtime],
        shadow_size: 32,
        diffs,
        wasm_function_header_target_offset: Some(SuspendOffset::Call(0)),
        wasm_offset_to_target_offset: vec![],
        loop_offsets: vec![],
        call_offsets: vec![(0, OffsetInfo { end_offset: 50, diff_id: 0, activate_offset: 10 })],
        trappable_offsets: vec![],
    }
}

fn module(diffs: Vec<MachineStateDiff>) -> ModuleStateMap {
    ModuleStateMap { local_functions: vec![(0, one_function(diffs))], total_size: 50 }
}

#[test]
fn module_encode_decode_then_query() {
    let m = module(vec![slot_diff(None)]);
    let mut out = Vec::new();
    m.write(&mut out);
    let (back, p) = ModuleStateMap::read(&out, 0).unwrap();
    assert_eq!(p, out.len());
    assert_eq!(back.total_size, 50);
    let f = back.function(0).unwrap();
    let s = f.reconstruct(SuspendOffset::Call(20)).unwrap();
    assert_eq!(s.register_values, two_registers().register_values);
    assert_eq!(s.prev_frame, vec![(4, MachineValue::CopyStackBPRelative(-8))]);
    assert_eq!(s.wasm_stack, vec![WasmAbstractValue::Const(1)]);
    assert_eq!(s.wasm_inst_offset, 7);
    assert_eq!(f.reconstruct(SuspendOffset::Call(60)).map(|_| ()), Err(CacheError::OffsetNotCovered));
    let mut again = Vec::new();
    back.write(&mut again);
    assert_eq!(again, out);
}

fn image() -> CacheImage {
    let mut t = ExceptionTable::new();
    t.insert(12, ExceptionCode::MemoryOutOfBounds);
    t.insert(3, ExceptionCode::Unreachable);
    CacheImage {
        code: vec![0x90; 50],
        function_pointers: vec![0],
        function_offsets: vec![0],
        func_import_count: 2,
        msm: module(vec![slot_diff(None), slot_diff(Some(0))]),
        exception_table: t,
    }
}

#[test]
fn image_round_trips() {
    let c = image();
    let mut out = Vec::new();
    c.encode(&mut out);
    assert_eq!(&out[..4], &[50, 0, 0, 0]);
    assert_eq!(out[54..58], [1, 0, 0, 0]);
    assert_eq!(out[66..70], [1, 0, 0, 0]);
    assert_eq!(out[78..86], [2, 0, 0, 0, 0, 0, 0, 0]);
    let (back, p) = CacheImage::decode(&out, 0).unwrap();
    assert_eq!(p, out.len());
    assert_eq!(back.code, c.code);
    assert_eq!(back.function_pointers, c.function_pointers);
    assert_eq!(back.function_offsets, c.function_offsets);
    assert_eq!(back.func_import_count, 2);
    assert_eq!(back.exception_table.offset_to_code, c.exception_table.offset_to_code);
    assert_eq!(back.exception_table.lookup(12), Ok(ExceptionCode::MemoryOutOfBounds));
    let mut again = Vec::new();
    back.encode(&mut again);
    assert_eq!(again, out);
    assert_eq!(back.check_total_size(), Ok(()));
}

#[test]
fn unequal_entry_lists_are_a_size_mismatch() {
    let mut c = image();
    c.function_offsets = vec![0, 8];
    let mut out = Vec::new();
    c.write(&mut out);
    assert_eq!(CacheImage::decode(&out, 0).map(|x| x.1), Err(CacheError::SizeMismatch));
}

#[test]
fn total_size_policy_is_checked_on_request() {
    let mut c = image();
    c.msm.total_size = 49;
    assert_eq!(c.check_total_size(), Err(CacheError::SizeMismatch));
    let mut out = Vec::new();
    c.encode(&mut out);
    assert!(CacheImage::decode(&out, 0).is_ok());
}

#[test]
fn forward_reference_is_refused_on_decode() {
    let m = module(vec![slot_diff(Some(0))]);
    let mut out = Vec::new();
    m.write(&mut out);
    assert_eq!(ModuleStateMap::read(&out, 0).map(|x| x.1), Err(CacheError::DiffChainCorrupt));
}

#[test]
fn unordered_frame_slots_are_refused_on_decode() {
    let mut s = two_registers();
    s.prev_frame = vec![(5, MachineValue::Vmctx), (2, MachineValue::Undefined)];
    let mut out = Vec::new();
    s.write(&mut out);
    assert_eq!(MachineState::read(&out, 0).map(|x| x.1), Err(CacheError::UnorderedKeys));
}

#[test]
fn truncated_image_is_refused() {
    let c = image();
    let mut out = Vec::new();
    c.encode(&mut out);
    assert_eq!(CacheImage::decode(&out[..out.len() - 1], 0).map(|x| x.1), Err(CacheError::TruncatedInput));
}

#[test]
fn diff_round_trips() {
    let mut d = slot_diff(Some(3));
    d.reg_diff = vec![(RegisterIndex(1), MachineValue::WasmLocal(2))];
    d.prev_frame_diff.push((9, None));
    let mut out = Vec::new();
    d.write(&mut out);
    let (back, p) = MachineStateDiff::read(&out, 0).unwrap();
    assert_eq!(p, out.len());
    assert_eq!(back.last, Some(3));
    assert_eq!(back.reg_diff, d.reg_diff);
    assert_eq!(back.prev_frame_diff, d.prev_frame_diff);
    assert_eq!(back.wasm_inst_offset, 7);
}
