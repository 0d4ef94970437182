use stackmap_cache::bytes::CacheError;
use stackmap_cache::exception::ExceptionTable;
use stackmap_cache::values::ExceptionCode;

#[test]
fn lookup_is_by_exact_offset() {
    let mut t = ExceptionTable::new();
    t.insert(16, ExceptionCode::MemoryOutOfBounds);
    t.insert(0, ExceptionCode::Unreachable);
    assert_eq!(t.lookup(16), Ok(ExceptionCode::MemoryOutOfBounds));
    assert_eq!(t.lookup(0), Ok(ExceptionCode::Unreachable));
    assert_eq!(t.lookup(15), Err(CacheError::ExceptionLookupMiss));
    assert_eq!(t.lookup(17), Err(CacheError::ExceptionLookupMiss));
    assert_eq!(t.len(), 2);
}

#[test]
fn insert_replaces_an_existing_offset() {
    let mut t = ExceptionTable::new();
    t.insert(4, ExceptionCode::Unreachable);
    t.insert(4, ExceptionCode::IllegalArithmetic);
    assert_eq!(t.len(), 1);
    assert_eq!(t.lookup(4), Ok(ExceptionCode::IllegalArithmetic));
}

#[test]
fn encoding_ignores_insertion_order() {
    let mut a = ExceptionTable::new();
    a.insert(30, ExceptionCode::CallIndirectOOB);
    a.insert(10, ExceptionCode::Unreachable);
    a.insert(20, ExceptionCode::MisalignedAtomicAccess);
    let mut b = ExceptionTable::new();
    b.insert(20, ExceptionCode::MisalignedAtomicAccess);
    b.insert(10, ExceptionCode::Unreachable);
    b.insert(30, ExceptionCode::CallIndirectOOB);
    let mut ea = Vec::new();
    a.encode(&mut ea);
    let mut eb = Vec::new();
    b.encode(&mut eb);
    assert_eq!(ea, eb);
    assert_eq!(ea.len(), 4 + 3 * 9);
    assert_eq!(&ea[..4], &[3, 0, 0, 0]);
    assert_eq!(ea[4], 10);
    assert_eq!(ea[12], 0);
    assert_eq!(ea[13], 20);
    assert_eq!(ea[21], 5);
}

#[test]
fn table_round_trips() {
    let mut t = ExceptionTable::new();
    t.insert(7, ExceptionCode::IncorrectCallIndirectSignature);
    t.insert(3, ExceptionCode::MemoryOutOfBounds);
    let mut out = Vec::new();
    t.encode(&mut out);
    let (back, p) = ExceptionTable::decode(&out, 0).unwrap();
    assert_eq!(p, out.len());
    assert_eq!(back.offset_to_code, t.offset_to_code);
}

#[test]
fn empty_table_round_trips() {
    let t = ExceptionTable::new();
    let mut out = Vec::new();
    t.encode(&mut out);
    assert_eq!(out, vec![0u8; 4]);
    let (back, p) = ExceptionTable::decode(&out, 0).unwrap();
    assert_eq!(p, 4);
    assert_eq!(back.len(), 0);
}

#[test]
fn unordered_entries_are_refused() {
    let mut bytes = vec![2u8, 0, 0, 0];
    bytes.extend_from_slice(&[9, 0, 0, 0, 0, 0, 0, 0, 1]);
    bytes.extend_from_slice(&[9, 0, 0, 0, 0, 0, 0, 0, 2]);
    assert_eq!(ExceptionTable::decode(&bytes, 0).map(|x| x.1), Err(CacheError::UnorderedKeys));
}

#[test]
fn unknown_code_and_truncation_are_refused() {
    let mut bytes = vec![1u8, 0, 0, 0];
    bytes.extend_from_slice(&[9, 0, 0, 0, 0, 0, 0, 0, 6]);
    assert_eq!(ExceptionTable::decode(&bytes, 0).map(|x| x.1), Err(CacheError::UnknownVariant));
    assert_eq!(ExceptionTable::decode(&bytes[..12], 0).map(|x| x.1), Err(CacheError::TruncatedInput));
}
