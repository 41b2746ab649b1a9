use std::collections::hash_map::DefaultHasher;
use std::hash::{Hash, Hasher};

use kerf::ffi::external_kind_supported;
use kerf::reserved::{
    CIntSize, CacheKey, CompileStatus, ExternalType, PointeeType, QueryDescriptor, ReadCapability,
    WriteCapability,
};

#[test]
fn external_kind_subset_guard() {
    assert!(external_kind_supported(&ExternalType::CInt(CIntSize::I64)));
    assert!(!external_kind_supported(&ExternalType::CFunction {
        param: Box::new(ExternalType::CInt(CIntSize::I64)),
        result: Box::new(ExternalType::CInt(CIntSize::I64)),
    }));
    assert!(!external_kind_supported(&ExternalType::CStruct(vec![ExternalType::CInt(
        CIntSize::I32
    )])));
    assert!(external_kind_supported(&ExternalType::CPointer(PointeeType::Char)));
    assert!(external_kind_supported(&ExternalType::Opaque("FILE".to_string())));
}

#[test]
fn reserved_cache_key_is_content_addressed() {
    let k1 = CacheKey { source_hash: 42, config_fingerprint: 1 };
    let k2 = CacheKey { source_hash: 42, config_fingerprint: 1 };
    assert_eq!(k1, k2);
    let k3 = CacheKey { source_hash: 43, config_fingerprint: 1 };
    assert_ne!(k1, k3);
}

#[test]
fn compilation_cache_cache_key_is_content_addressed() {
    let k1 = CacheKey { source_hash: 42, config_fingerprint: 1 };
    let k2 = CacheKey { source_hash: 42, config_fingerprint: 1 };
    assert_eq!(k1, k2);
    let k3 = CacheKey { source_hash: 43, config_fingerprint: 1 };
    assert_ne!(k1, k3);
}

#[test]
fn reserved_capability_tokens_are_unforgeable() {
    fn takes_read(_cap: &ReadCapability) {}
    fn takes_write(_cap: &WriteCapability) {}
    let _ = (
        takes_read as fn(&ReadCapability),
        takes_write as fn(&WriteCapability),
    );
}

#[test]
fn capability_io_capability_tokens_are_unforgeable() {
    fn takes_read(_cap: &ReadCapability) {}
    fn takes_write(_cap: &WriteCapability) {}
    let _ = (
        takes_read as fn(&ReadCapability),
        takes_write as fn(&WriteCapability),
    );
}

#[test]
fn external_type_is_recursive_and_hashable() {
    let t1 = ExternalType::CStruct(vec![
        ExternalType::CInt(CIntSize::I32),
        ExternalType::CPointer(PointeeType::U8),
    ]);
    let t2 = ExternalType::CStruct(vec![
        ExternalType::CInt(CIntSize::I32),
        ExternalType::CPointer(PointeeType::U8),
    ]);
    assert_eq!(t1, t2);
    let t3 = ExternalType::CFunction {
        param: Box::new(ExternalType::CInt(CIntSize::I64)),
        result: Box::new(ExternalType::Opaque("FILE".into())),
    };
    assert_ne!(t1, t3);
    let mut h1 = DefaultHasher::new();
    t1.hash(&mut h1);
    let mut h2 = DefaultHasher::new();
    t2.hash(&mut h2);
    assert_eq!(h1.finish(), h2.finish());
}

#[test]
fn query_descriptor_is_hashable_and_fingerprinted() {
    let d1 = QueryDescriptor { name: "expand", input_fingerprint: 42 };
    let d2 = QueryDescriptor { name: "expand", input_fingerprint: 42 };
    assert_eq!(d1, d2);
    let d3 = QueryDescriptor { name: "expand", input_fingerprint: 43 };
    assert_ne!(d1, d3);
    let d4 = QueryDescriptor { name: "compile", input_fingerprint: 42 };
    assert_ne!(d1, d4);
}

#[test]
fn compile_status_lifecycle_shape_is_total() {
    let all = [
        CompileStatus::Queued,
        CompileStatus::Running,
        CompileStatus::Completed,
        CompileStatus::Failed,
        CompileStatus::Cancelled,
    ];
    assert_eq!(all.len(), 5);
    assert!(all.contains(&CompileStatus::Queued));
}
