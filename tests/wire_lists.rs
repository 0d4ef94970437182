use stackmap_cache::bytes::CacheError;
use stackmap_cache::function::{FunctionStateMap, ModuleStateMap};
use stackmap_cache::state::{MachineState, MachineStateDiff};
use stackmap_cache::values::{MachineValue, OffsetInfo, SuspendOffset, WasmAbstractValue};
use stackmap_cache::wire::{read_seq, write_seq, Wire};

#[test]
fn keyed_lists_round_trip() {
    let xs: Vec<(usize, Option<MachineValue>)> = vec![
        (1, None),
        (4, Some(MachineValue::CopyStackBPRelative(-8))),
        (9, Some(MachineValue::TwoHalves(Box::new((MachineValue::Vmctx, MachineValue::WasmStack(2)))))),
    ];
    let mut out = Vec::new();
    write_seq(&mut out, &xs);
    let (back, p) = read_seq::<(usize, Option<MachineValue>)>(&out, 0).unwrap();
    assert_eq!(back, xs);
    assert_eq!(p, out.len());
}

#[test]
fn empty_list_is_a_zero_count() {
    let xs: Vec<WasmAbstractValue> = vec![];
    let mut out = Vec::new();
    write_seq(&mut out, &xs);
    assert_eq!(out, vec![0u8; 4]);
    assert_eq!(read_seq::<WasmAbstractValue>(&out, 0), Ok((vec![], 4)));
}

#[test]
fn option_with_bad_tag_is_refused() {
    assert_eq!(<Option<usize> as Wire>::read(&[2u8], 0), Err(CacheError::UnknownVariant));
    assert_eq!(<Option<usize> as Wire>::read(&[0u8], 0), Ok((None, 1)));
    let mut out = Vec::new();
    Some(SuspendOffset::Call(7)).write(&mut out);
    assert_eq!(out, vec![1, 1, 7, 0, 0, 0, 0, 0, 0, 0]);
}

#[test]
fn truncated_list_is_refused() {
    let xs: Vec<usize> = vec![1, 2, 3];
    let mut out = Vec::new();
    write_seq(&mut out, &xs);
    assert_eq!(read_seq::<usize>(&out[..out.len() - 1], 0), Err(CacheError::TruncatedInput));
}

fn two_registers() -> MachineState {
    MachineState {
        stack_values: vec![],
        register_values: vec![MachineValue::Vmctx, MachineValue::Undefined],
        prev_frame: vec![],
        wasm_stack: vec![],
        wasm_stack_private_depth: 0,
        wasm_inst_offset: 0,
    }
}

#[test]
fn one_function_module_scenario() {
    let d = MachineStateDiff {
        last: None,
        stack_push: vec![],
        stack_pop: 0,
        reg_diff: vec![],
        prev_frame_diff: vec![(4, Some(MachineValue::CopyStackBPRelative(-8)))],
        wasm_stack_push: vec![],
        wasm_stack_pop: 0,
        wasm_stack_private_depth: 0,
        wasm_inst_offset: 0,
    };
    let f = FunctionStateMap {
        initial: two_registers(),
        local_function_id: 0,
        locals: vec![],
        shadow_size: 0,
        diffs: vec![d],
        wasm_function_header_target_offset: None,
        wasm_offset_to_target_offset: vec![],
        loop_offsets: vec![],
        call_offsets: vec![(0, OffsetInfo { end_offset: 50, diff_id: 0, activate_offset: 10 })],
        trappable_offsets: vec![],
    };
    let m = ModuleStateMap { local_functions: vec![(0, f)], total_size: 50 };
    let f = m.function(0).unwrap();
    let s = f.reconstruct(SuspendOffset::Call(20)).unwrap();
    assert_eq!(s.register_values, two_registers().register_values);
    assert_eq!(s.prev_frame, vec![(4, MachineValue::CopyStackBPRelative(-8))]);
    assert!(s.stack_values.is_empty());
    assert_eq!(f.reconstruct(SuspendOffset::Call(60)).map(|_| ()), Err(CacheError::OffsetNotCovered));
    assert_eq!(f.offset_info(SuspendOffset::Call(20)).map(|i| i.activate_offset), Ok(10));
}
