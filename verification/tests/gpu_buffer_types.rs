use lunamisc::gpu_buffers::{
    binding_kind, BufferGroupBinding, copy_usage, needs_read_buffer, storage_size, uniform_size, BindingKind,
    BufferSize, BufferType, CopyUsage, DynamicSize, HostReadOnly, HostReadWrite, HostWriteOnly,
    ShaderReadOnly, ShaderReadWrite, StaticSize, TooLargeForStorage, TooLargeForUniform,
    UniformOnly,
};

#[test]
fn copy_usages_follow_host_access() {
    assert_eq!(copy_usage(true, true), CopyUsage::SrcAndDst);
    assert_eq!(copy_usage(false, true), CopyUsage::Dst);
    assert_eq!(copy_usage(true, false), CopyUsage::Src);
}

#[test]
fn writable_buffers_are_bound_as_storage() {
    assert_eq!(binding_kind(true, true), BindingKind::StorageReadWrite);
    assert_eq!(binding_kind(false, true), BindingKind::Uniform);
    assert_eq!(binding_kind(false, false), BindingKind::StorageReadOnly);
}

#[test]
fn read_buffer_only_for_host_reads_of_writable_buffers() {
    assert!(needs_read_buffer(true, false));
    assert!(!needs_read_buffer(true, true));
    assert!(!needs_read_buffer(false, false));
}

#[test]
fn buffer_limits() {
    assert_eq!(storage_size(16, 4), Ok(64));
    assert_eq!(storage_size(134217728, 1), Err(TooLargeForStorage));
    assert_eq!(uniform_size(16383, 4), Ok(65532));
    assert_eq!(uniform_size(16384, 4), Err(TooLargeForUniform));
    assert_eq!(
        TooLargeForUniform.message(),
        "Type is too large to be used in a uniform buffer (max 65536 bytes)"
    );
}

#[test]
fn sizes_of_static_and_dynamic_buffers() {
    assert_eq!(StaticSize::<[f32; 4]>::new().size(), 16);
    assert_eq!(DynamicSize::<u32>::new(10).size(), 40);
    assert_eq!(DynamicSize::<u64>::default().size(), 0);
    let b = BufferType::<[u16], HostReadWrite, ShaderReadOnly>::new_dyn(3);
    assert_eq!(b.size(), 6);
    let s = BufferType::<u64, HostWriteOnly, ShaderReadWrite, UniformOnly>::new();
    assert_eq!(s.size(), 8);
}

#[test]
fn access_markers() {
    assert!(BufferType::<u32, HostReadOnly, ShaderReadOnly>::host_can_read());
    assert!(!BufferType::<u32, HostReadOnly, ShaderReadOnly>::host_can_write());
    assert!(BufferType::<u32, HostReadWrite, ShaderReadWrite>::shader_can_write());
    assert!(BufferType::<u32, HostWriteOnly, ShaderReadOnly, UniformOnly>::is_uniform());
}

#[test]
fn binding_annotation_names_group_and_binding() {
    let b = BufferGroupBinding::<u32, ()>::new_unchecked(0, 3);
    assert_eq!(b.annotation(), "@group(0) @binding(3) ");
    let c = BufferGroupBinding::<u32, ()>::new_unchecked(12, 105).unchecked_cast::<[u32; 4]>();
    assert_eq!(c.annotation(), "@group(12) @binding(105) ");
}
