use stackmap_cache::bytes::CacheError;
use stackmap_cache::values::{
    read_info, read_suspend, read_value, read_wasm_value, write_info, write_suspend,
    write_value, write_wasm_value, ExceptionCode, MachineValue, OffsetInfo, RegisterIndex,
    SuspendOffset, WasmAbstractValue,
};

fn round_trip(v: MachineValue) {
    let mut out = Vec::new();
    write_value(&mut out, &v);
    let (back, p) = read_value(&out, 0).unwrap();
    assert_eq!(back, v);
    assert_eq!(p, out.len());
}

#[test]
fn every_storage_location_round_trips() {
    round_trip(MachineValue::Undefined);
    round_trip(MachineValue::Vmctx);
    round_trip(MachineValue::VmctxDeref(vec![]));
    round_trip(MachineValue::VmctxDeref(vec![8, 16, 0x1234_5678]));
    round_trip(MachineValue::PreserveRegister(RegisterIndex(13)));
    round_trip(MachineValue::CopyStackBPRelative(-8));
    round_trip(MachineValue::CopyStackBPRelative(i32::MIN));
    round_trip(MachineValue::ExplicitShadow);
    round_trip(MachineValue::WasmStack(3));
    round_trip(MachineValue::WasmLocal(usize::MAX));
}

#[test]
fn nested_halves_round_trip() {
    let inner_a = MachineValue::TwoHalves(Box::new((
        MachineValue::PreserveRegister(RegisterIndex(1)),
        MachineValue::WasmLocal(2),
    )));
    let inner_b = MachineValue::TwoHalves(Box::new((
        MachineValue::VmctxDeref(vec![1, 2]),
        MachineValue::CopyStackBPRelative(-16),
    )));
    round_trip(MachineValue::TwoHalves(Box::new((inner_a, inner_b))));
}

#[test]
fn integer_layout_is_little_endian() {
    let mut out = Vec::new();
    write_value(&mut out, &MachineValue::WasmStack(0x0102));
    assert_eq!(out, vec![6, 2, 1, 0, 0, 0, 0, 0, 0]);
    let mut out = Vec::new();
    write_value(&mut out, &MachineValue::CopyStackBPRelative(-2));
    assert_eq!(out, vec![4, 0xfe, 0xff, 0xff, 0xff]);
    let mut out = Vec::new();
    write_value(&mut out, &MachineValue::VmctxDeref(vec![5]));
    assert_eq!(out, vec![2, 1, 0, 0, 0, 5, 0, 0, 0, 0, 0, 0, 0]);
    let mut out = Vec::new();
    write_value(&mut out, &MachineValue::VmctxDeref(vec![]));
    assert_eq!(out, vec![2, 0, 0, 0, 0]);
}

#[test]
fn discriminant_nine_is_unknown_variant() {
    assert_eq!(read_value(&[9u8], 0), Err(CacheError::UnknownVariant));
    assert_eq!(read_value(&[9u8, 0, 0, 0, 0], 0), Err(CacheError::UnknownVariant));
    assert_eq!(read_value(&[255u8], 0), Err(CacheError::UnknownVariant));
}

#[test]
fn truncated_value_is_reported() {
    assert_eq!(read_value(&[], 0), Err(CacheError::TruncatedInput));
    assert_eq!(read_value(&[3u8, 1, 2], 0), Err(CacheError::TruncatedInput));
    assert_eq!(read_value(&[8u8, 0], 0), Err(CacheError::TruncatedInput));
    assert_eq!(read_value(&[2u8, 2, 0, 0, 0, 1, 0, 0, 0, 0, 0, 0, 0], 0), Err(CacheError::TruncatedInput));
}

#[test]
fn read_value_at_an_offset() {
    let mut out = vec![0xaa, 0xbb];
    write_value(&mut out, &MachineValue::WasmLocal(7));
    let (v, p) = read_value(&out, 2).unwrap();
    assert_eq!(v, MachineValue::WasmLocal(7));
    assert_eq!(p, 11);
}

#[test]
fn wasm_values_round_trip() {
    for w in [WasmAbstractValue::Runtime, WasmAbstractValue::Const(0xdead_beef_0000_0001)] {
        let mut out = Vec::new();
        write_wasm_value(&mut out, w);
        assert_eq!(read_wasm_value(&out, 0), Ok((w, out.len())));
    }
    assert_eq!(read_wasm_value(&[2u8], 0), Err(CacheError::UnknownVariant));
    assert_eq!(read_wasm_value(&[1u8, 0], 0), Err(CacheError::TruncatedInput));
}

#[test]
fn suspend_offsets_round_trip() {
    for o in [SuspendOffset::Loop(1), SuspendOffset::Call(200), SuspendOffset::Trappable(0)] {
        let mut out = Vec::new();
        write_suspend(&mut out, o);
        assert_eq!(out.len(), 9);
        assert_eq!(read_suspend(&out, 0), Ok((o, 9)));
    }
    assert_eq!(read_suspend(&[3u8, 0, 0, 0, 0, 0, 0, 0, 0], 0), Err(CacheError::UnknownVariant));
}

#[test]
fn offset_info_round_trips() {
    let i = OffsetInfo { end_offset: 100, diff_id: 2, activate_offset: 40 };
    let mut out = Vec::new();
    write_info(&mut out, i);
    assert_eq!(out.len(), 24);
    assert_eq!(out[0], 100);
    assert_eq!(out[8], 2);
    assert_eq!(out[16], 40);
    assert_eq!(read_info(&out, 0), Ok((i, 24)));
    assert_eq!(read_info(&out[..23], 0), Err(CacheError::TruncatedInput));
}

#[test]
fn exception_code_tags() {
    let all = [
        ExceptionCode::Unreachable,
        ExceptionCode::IncorrectCallIndirectSignature,
        ExceptionCode::MemoryOutOfBounds,
        ExceptionCode::CallIndirectOOB,
        ExceptionCode::IllegalArithmetic,
        ExceptionCode::MisalignedAtomicAccess,
    ];
    for (i, c) in all.iter().enumerate() {
        assert_eq!(c.tag() as usize, i);
        assert_eq!(ExceptionCode::from_tag(i as u8), Some(*c));
    }
    assert_eq!(ExceptionCode::from_tag(6), None);
}

#[test]
fn duplicate_is_a_deep_copy() {
    let v = MachineValue::TwoHalves(Box::new((
        MachineValue::VmctxDeref(vec![1, 2, 3]),
        MachineValue::Vmctx,
    )));
    assert_eq!(v.duplicate(), v);
    assert_eq!(v.clone(), v);
}
