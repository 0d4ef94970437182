use stackmap_cache::bytes::CacheError;
use stackmap_cache::function::{find_governing, FunctionStateMap, ModuleStateMap};
use stackmap_cache::state::{MachineState, MachineStateDiff};
use stackmap_cache::values::{MachineValue, OffsetInfo, RegisterIndex, SuspendOffset, WasmAbstractValue};

fn empty_diff(last: Option<usize>) -> MachineStateDiff {
    MachineStateDiff {
        last,
        stack_push: vec![],
        stack_pop: 0,
        reg_diff: vec![],
        prev_frame_diff: vec![],
        wasm_stack_push: vec![],
        wasm_stack_pop: 0,
        wasm_stack_private_depth: 0,
        wasm_inst_offset: 0,
    }
}

fn baseline() -> MachineState {
    MachineState {
        stack_values: vec![MachineValue::WasmStack(0)],
        register_values: vec![MachineValue::Undefined, MachineValue::Vmctx],
        prev_frame: vec![(1, MachineValue::CopyStackBPRelative(8)), (2, MachineValue::Undefined)],
        wasm_stack: vec![WasmAbstractValue::Runtime],
        wasm_stack_private_depth: 1,
        wasm_inst_offset: 0,
    }
}

fn function(diffs: Vec<MachineStateDiff>, calls: Vec<(usize, OffsetInfo)>) -> FunctionStateMap {
    FunctionStateMap {
        initial: baseline(),
        local_function_id: 0,
        locals: vec![WasmAbstractValue::Const(5)],
        shadow_size: 32,
        diffs,
        wasm_function_header_target_offset: None,
        wasm_offset_to_target_offset: vec![],
        loop_offsets: vec![],
        call_offsets: calls,
        trappable_offsets: vec![],
    }
}

#[test]
fn three_diff_chain_reconstructs() {
    let mut d1 = empty_diff(None);
    d1.stack_push = vec![MachineValue::WasmLocal(3)];
    d1.wasm_inst_offset = 11;
    let mut d2 = empty_diff(Some(0));
    d2.reg_diff = vec![(RegisterIndex(0), MachineValue::ExplicitShadow)];
    d2.prev_frame_diff = vec![(2, None)];
    d2.wasm_inst_offset = 12;
    let mut d3 = empty_diff(Some(1));
    d3.stack_pop = 1;
    d3.wasm_inst_offset = 13;
    d3.wasm_stack_private_depth = 1;
    let f = function(vec![d1, d2, d3], vec![(10, OffsetInfo { end_offset: 20, diff_id: 2, activate_offset: 10 })]);
    let s = f.reconstruct(SuspendOffset::Call(15)).unwrap();
    let b = baseline();
    assert_eq!(s.stack_values, b.stack_values);
    assert_eq!(s.register_values, vec![MachineValue::ExplicitShadow, MachineValue::Vmctx]);
    assert_eq!(s.prev_frame, vec![(1, MachineValue::CopyStackBPRelative(8))]);
    assert_eq!(s.wasm_stack, b.wasm_stack);
    assert_eq!(s.wasm_inst_offset, 13);
    assert_eq!(s.wasm_stack_private_depth, 1);
    let mid = f.state_at_diff(1).unwrap();
    assert_eq!(mid.stack_values, vec![MachineValue::WasmStack(0), MachineValue::WasmLocal(3)]);
    assert_eq!(mid.wasm_inst_offset, 12);
}

#[test]
fn end_offset_is_excluded() {
    let index = vec![(0, OffsetInfo { end_offset: 100, diff_id: 0, activate_offset: 0 })];
    assert_eq!(find_governing(&index, 99), Ok(index[0].1));
    assert_eq!(find_governing(&index, 0), Ok(index[0].1));
    assert_eq!(find_governing(&index, 100), Err(CacheError::OffsetNotCovered));
}

#[test]
fn greatest_key_at_most_the_offset_governs() {
    let a = OffsetInfo { end_offset: 50, diff_id: 0, activate_offset: 10 };
    let b = OffsetInfo { end_offset: 80, diff_id: 1, activate_offset: 60 };
    let index = vec![(10, a), (60, b)];
    assert_eq!(find_governing(&index, 5), Err(CacheError::OffsetNotCovered));
    assert_eq!(find_governing(&index, 49), Ok(a));
    assert_eq!(find_governing(&index, 55), Err(CacheError::OffsetNotCovered));
    assert_eq!(find_governing(&index, 60), Ok(b));
    assert_eq!(find_governing(&index, 79), Ok(b));
    assert_eq!(find_governing(&vec![], 0), Err(CacheError::OffsetNotCovered));
}

#[test]
fn self_reference_is_corrupt() {
    let f = function(
        vec![empty_diff(None), empty_diff(Some(0)), empty_diff(Some(2))],
        vec![(0, OffsetInfo { end_offset: 10, diff_id: 2, activate_offset: 0 })],
    );
    assert_eq!(f.reconstruct(SuspendOffset::Call(5)).map(|_| ()), Err(CacheError::DiffChainCorrupt));
    assert_eq!(f.state_at_diff(2).map(|_| ()), Err(CacheError::DiffChainCorrupt));
    assert!(f.state_at_diff(1).is_ok());
}

#[test]
fn forward_and_out_of_range_references_are_corrupt() {
    let f = function(vec![empty_diff(Some(1)), empty_diff(None), empty_diff(Some(7))], vec![]);
    assert_eq!(f.state_at_diff(0).map(|_| ()), Err(CacheError::DiffChainCorrupt));
    assert_eq!(f.state_at_diff(2).map(|_| ()), Err(CacheError::DiffChainCorrupt));
    assert_eq!(f.state_at_diff(3).map(|_| ()), Err(CacheError::DiffChainCorrupt));
    assert!(f.state_at_diff(1).is_ok());
}

#[test]
fn query_uses_the_index_of_its_kind() {
    let f = function(vec![empty_diff(None)], vec![(0, OffsetInfo { end_offset: 10, diff_id: 0, activate_offset: 0 })]);
    assert!(f.reconstruct(SuspendOffset::Call(3)).is_ok());
    assert_eq!(f.reconstruct(SuspendOffset::Loop(3)).map(|_| ()), Err(CacheError::OffsetNotCovered));
    assert_eq!(f.reconstruct(SuspendOffset::Trappable(3)).map(|_| ()), Err(CacheError::OffsetNotCovered));
}

#[test]
fn popping_past_the_bottom_is_corrupt() {
    let mut d = empty_diff(None);
    d.stack_push = vec![MachineValue::Vmctx];
    d.stack_pop = 3;
    let f = function(vec![d], vec![]);
    assert_eq!(f.state_at_diff(0).map(|_| ()), Err(CacheError::DiffChainCorrupt));
    let mut d = empty_diff(None);
    d.stack_push = vec![MachineValue::Vmctx];
    d.stack_pop = 2;
    let f = function(vec![d], vec![]);
    assert!(f.state_at_diff(0).unwrap().stack_values.is_empty());
    let mut d = empty_diff(None);
    d.wasm_stack_pop = 2;
    let f = function(vec![d], vec![]);
    assert_eq!(f.state_at_diff(0).map(|_| ()), Err(CacheError::DiffChainCorrupt));
}

#[test]
fn overriding_a_missing_register_is_corrupt() {
    let mut d = empty_diff(None);
    d.reg_diff = vec![(RegisterIndex(2), MachineValue::Vmctx)];
    let f = function(vec![empty_diff(None), d], vec![]);
    assert_eq!(f.state_at_diff(1).map(|_| ()), Err(CacheError::DiffChainCorrupt));
    assert!(f.state_at_diff(0).is_ok());
}

#[test]
fn wasm_offset_resolves_through_its_index() {
    let mut f = function(vec![empty_diff(None)], vec![(0, OffsetInfo { end_offset: 10, diff_id: 0, activate_offset: 0 })]);
    f.wasm_offset_to_target_offset = vec![(3, SuspendOffset::Call(4)), (5, SuspendOffset::Loop(4))];
    assert!(f.reconstruct_at_wasm_offset(3).is_ok());
    assert_eq!(f.reconstruct_at_wasm_offset(4).map(|_| ()), Err(CacheError::OffsetNotCovered));
    assert_eq!(f.reconstruct_at_wasm_offset(5).map(|_| ()), Err(CacheError::OffsetNotCovered));
}

#[test]
fn module_lookup_by_id() {
    let m = ModuleStateMap { local_functions: vec![(0, function(vec![], vec![])), (3, function(vec![], vec![]))], total_size: 0 };
    assert!(m.function(0).is_some());
    assert!(m.function(3).is_some());
    assert!(m.function(1).is_none());
}
