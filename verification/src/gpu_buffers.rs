//! Buffer types of compute shaders, encoded statically: what a buffer holds,
//! how the host and the shaders may access it, whether it is a uniform or a
//! storage buffer, and how large it is.

use core::marker::PhantomData;
use vstd::prelude::*;

use crate::text::{decimal, push_decimal, push_str};

verus! {

/// How the host may access a buffer.
pub trait HostReadableWritable {
    /// Whether the host may read such a buffer.
    spec fn readable() -> bool;

    /// Whether the host may write such a buffer.
    spec fn writable() -> bool;

    /// Whether the host may read the buffer.
    fn can_read() -> (r: bool)
        ensures
            r == Self::readable(),
    ;

    /// Whether the host may write the buffer.
    fn can_write() -> (r: bool)
        ensures
            r == Self::writable(),
    ;
}

/// Marker type indicating that a buffer can only be read from by the host.
#[derive(Debug, Clone, Copy)]
pub struct HostReadOnly;

impl HostReadableWritable for HostReadOnly {
    open spec fn readable() -> bool {
        true
    }

    open spec fn writable() -> bool {
        false
    }

    fn can_read() -> (r: bool)
        ensures
            r,
    {
        true
    }

    fn can_write() -> (r: bool)
        ensures
            !r,
    {
        false
    }
}

/// Marker type indicating that a buffer can only be written to by the host.
#[derive(Debug, Clone, Copy)]
pub struct HostWriteOnly;

impl HostReadableWritable for HostWriteOnly {
    open spec fn readable() -> bool {
        false
    }

    open spec fn writable() -> bool {
        true
    }

    fn can_read() -> (r: bool)
        ensures
            !r,
    {
        false
    }

    fn can_write() -> (r: bool)
        ensures
            r,
    {
        true
    }
}

/// Marker type indicating that a buffer can be read from and written to by the host.
#[derive(Debug, Clone, Copy)]
pub struct HostReadWrite;

impl HostReadableWritable for HostReadWrite {
    open spec fn readable() -> bool {
        true
    }

    open spec fn writable() -> bool {
        true
    }

    fn can_read() -> (r: bool)
        ensures
            r,
    {
        true
    }

    fn can_write() -> (r: bool)
        ensures
            r,
    {
        true
    }
}

/// How shaders may access a buffer.
pub trait ShaderWritable {
    /// Whether shaders may write such a buffer.
    spec fn writable() -> bool;

    /// Whether shaders may write the buffer.
    fn can_write() -> (r: bool)
        ensures
            r == Self::writable(),
    ;
}

/// Marker type indicating that a buffer can only be read from by shaders.
#[derive(Debug, Clone, Copy)]
pub struct ShaderReadOnly;

impl ShaderWritable for ShaderReadOnly {
    open spec fn writable() -> bool {
        false
    }

    fn can_write() -> (r: bool)
        ensures
            !r,
    {
        false
    }
}

/// Marker type indicating that a buffer can be read from and written to by shaders.
#[derive(Debug, Clone, Copy)]
pub struct ShaderReadWrite;

impl ShaderWritable for ShaderReadWrite {
    open spec fn writable() -> bool {
        true
    }

    fn can_write() -> (r: bool)
        ensures
            r,
    {
        true
    }
}

/// Whether a buffer is a uniform or a storage buffer.
pub trait UniformOrStorage {
    /// Whether such a buffer is a uniform buffer.
    spec fn uniform() -> bool;

    /// Whether the buffer is a uniform buffer.
    fn is_uniform() -> (r: bool)
        ensures
            r == Self::uniform(),
    ;
}

/// Marker type indicating that a buffer is a uniform buffer.
#[derive(Debug, Clone, Copy)]
pub struct UniformOnly;

impl UniformOrStorage for UniformOnly {
    open spec fn uniform() -> bool {
        true
    }

    fn is_uniform() -> (r: bool)
        ensures
            r,
    {
        true
    }
}

/// Marker type indicating that a buffer is a storage buffer.
///
/// This is the default since storage buffers are bigger and can be written to.
#[derive(Debug, Clone, Copy)]
pub struct StorageOnly;

impl UniformOrStorage for StorageOnly {
    open spec fn uniform() -> bool {
        false
    }

    fn is_uniform() -> (r: bool)
        ensures
            !r,
    {
        false
    }
}

/// A type that can accurately represent the size of a buffer.
pub trait BufferSize: Copy {
    /// The size in bytes.
    spec fn spec_size(&self) -> int;

    /// The size in bytes.
    fn size(&self) -> (r: u64)
        requires
            self.spec_size() <= u64::MAX,
        ensures
            r == self.spec_size(),
    ;
}

/// A buffer size that is statically known as `T` is statically sized.
pub struct StaticSize<T> {
    phantom: PhantomData<T>,
}

impl<T> StaticSize<T> {
    /// The size of a `T`.
    pub fn new() -> (r: Self) {
        StaticSize { phantom: PhantomData }
    }
}

impl<T> Clone for StaticSize<T> {
    fn clone(&self) -> (r: Self) {
        StaticSize { phantom: PhantomData }
    }
}

impl<T> Copy for StaticSize<T> {

}

impl<T> Default for StaticSize<T> {
    fn default() -> (r: Self) {
        StaticSize { phantom: PhantomData }
    }
}

impl<T> BufferSize for StaticSize<T> {
    open spec fn spec_size(&self) -> int {
        vstd::layout::size_of::<T>() as int
    }

    fn size(&self) -> (r: u64) {
        core::mem::size_of::<T>() as u64
    }
}

/// A buffer size that is a multiple of `T`, where `T` is statically sized.
///
/// Used for slices: `len` elements, each padded to the alignment of `T`.
pub struct DynamicSize<T>(pub usize, pub PhantomData<T>);

impl<T> DynamicSize<T> {
    /// The size of `len` elements.
    pub fn new(len: usize) -> (r: Self)
        ensures
            r.0 == len,
    {
        DynamicSize(len, PhantomData)
    }
}

impl<T> Clone for DynamicSize<T> {
    fn clone(&self) -> (r: Self)
        ensures
            r.0 == self.0,
    {
        DynamicSize(self.0, PhantomData)
    }
}

impl<T> Copy for DynamicSize<T> {

}

impl<T> Default for DynamicSize<T> {
    fn default() -> (r: Self)
        ensures
            r.0 == 0,
    {
        DynamicSize(0, PhantomData)
    }
}

impl<T> BufferSize for DynamicSize<T> {
    /// `len` times the size of `T`, which is a multiple of its alignment.
    open spec fn spec_size(&self) -> int {
        self.0 * vstd::layout::size_of::<T>()
    }

    fn size(&self) -> (r: u64) {
        vstd::layout::layout_for_type_is_valid::<T>();
        let size = core::mem::size_of::<T>();
        let align = core::mem::align_of::<T>();
        // Each element is padded to a multiple of the alignment, which its
        // size already is.
        assert(size % align == 0);
        let stride = size;
        self.0 as u64 * stride as u64
    }
}

/// A type that can fit into a buffer: a statically sized type, or a slice of
/// one.
pub trait BufferSized {
    /// The type of size that this type can be represented with.
    type Size: BufferSize;
}

impl<T> BufferSized for T {
    type Size = StaticSize<T>;
}

impl<T> BufferSized for [T] {
    type Size = DynamicSize<T>;
}

/// Statically encodes the type of buffer.
///
/// The first generic type is the type of data stored in the buffer.
/// The second generic type is the type of access the host has to the buffer.
/// The third generic type is the type of access shaders have to the buffer.
/// The fourth generic type is the type of buffer (uniform or storage), and is Storage by default
pub struct BufferType<T: BufferSized + ?Sized, H, S, O = StorageOnly> {
    size: T::Size,
    data: PhantomData<T>,
    host: PhantomData<H>,
    shader: PhantomData<S>,
    kind: PhantomData<O>,
}

impl<T: BufferSized + ?Sized, H, S, O> BufferType<T, H, S, O> {
    /// The size of the buffer.
    pub closed spec fn buffer_size(&self) -> T::Size {
        self.size
    }

    /// The size of the buffer in bytes.
    pub fn size(&self) -> (r: u64)
        requires
            self.buffer_size().spec_size() <= u64::MAX,
        ensures
            r == self.buffer_size().spec_size(),
    {
        self.size.size()
    }

    /// Whether the host may read the buffer.
    pub fn host_can_read() -> (r: bool) where H: HostReadableWritable
        ensures
            r == H::readable(),
    {
        H::can_read()
    }

    /// Whether the host may write the buffer.
    pub fn host_can_write() -> (r: bool) where H: HostReadableWritable
        ensures
            r == H::writable(),
    {
        H::can_write()
    }

    /// Whether shaders may write the buffer.
    pub fn shader_can_write() -> (r: bool) where S: ShaderWritable
        ensures
            r == S::writable(),
    {
        S::can_write()
    }

    /// Whether the buffer is a uniform buffer.
    pub fn is_uniform() -> (r: bool) where O: UniformOrStorage
        ensures
            r == O::uniform(),
    {
        O::is_uniform()
    }
}

impl<T, H, S, O> BufferType<T, H, S, O> {
    /// Creates a new buffer capable of holding `T`.
    pub fn new() -> (r: Self)
        ensures
            r.buffer_size().spec_size() == vstd::layout::size_of::<T>(),
    {
        BufferType {
            size: StaticSize::new(),
            data: PhantomData,
            host: PhantomData,
            shader: PhantomData,
            kind: PhantomData,
        }
    }
}

impl<T, H, S, O> BufferType<[T], H, S, O> {
    /// Creates a new buffer capable of holding a slice of `T` with the given `len`.
    pub fn new_dyn(len: usize) -> (r: Self)
        ensures
            r.buffer_size().0 == len,
            r.buffer_size().spec_size() == len * vstd::layout::size_of::<T>(),
    {
        BufferType {
            size: DynamicSize::new(len),
            data: PhantomData,
            host: PhantomData,
            shader: PhantomData,
            kind: PhantomData,
        }
    }
}

/// Marker trait for valid buffer types considering all of the statically known information:
/// what the host writes into the buffer and what it reads out of it (`()` where it may not).
pub trait ValidBufferType {
    type WriteType: ?Sized + BufferSized;
    type ReadType: ?Sized + BufferSized;
}

impl<T: BufferSized + ?Sized, O> ValidBufferType for BufferType<T, HostReadOnly, ShaderReadOnly, O> {
    type WriteType = ();
    type ReadType = T;
}

impl<T: BufferSized + ?Sized, O> ValidBufferType for BufferType<T, HostWriteOnly, ShaderReadOnly, O> {
    type WriteType = T;
    type ReadType = ();
}

impl<T: BufferSized + ?Sized, O> ValidBufferType for BufferType<T, HostReadWrite, ShaderReadOnly, O> {
    type WriteType = T;
    type ReadType = T;
}

impl<T: BufferSized + ?Sized> ValidBufferType for BufferType<T, HostReadOnly, ShaderReadWrite, StorageOnly> {
    type WriteType = ();
    type ReadType = T;
}

impl<T: BufferSized + ?Sized> ValidBufferType for BufferType<T, HostWriteOnly, ShaderReadWrite, StorageOnly> {
    type WriteType = T;
    type ReadType = ();
}

impl<T: BufferSized + ?Sized> ValidBufferType for BufferType<T, HostReadWrite, ShaderReadWrite, StorageOnly> {
    type WriteType = T;
    type ReadType = T;
}

/// The copy usages a buffer is created with, besides being a uniform or a
/// storage buffer.
#[derive(Clone, Copy, Debug, PartialEq, Eq, Structural)]
pub enum CopyUsage {
    /// The host both reads and writes the buffer.
    SrcAndDst,
    /// The host only writes the buffer.
    Dst,
    /// The host only reads the buffer.
    Src,
}

/// How a buffer is bound for a compute shader.
#[derive(Clone, Copy, Debug, PartialEq, Eq, Structural)]
pub enum BindingKind {
    /// A storage buffer that shaders may write.
    StorageReadWrite,
    /// A uniform buffer.
    Uniform,
    /// A storage buffer that shaders only read.
    StorageReadOnly,
}

/// The copy usages of a buffer that the host reads or writes as given.
pub fn copy_usage(host_can_read: bool, host_can_write: bool) -> (r: CopyUsage)
    ensures
        r == (if host_can_read && host_can_write {
            CopyUsage::SrcAndDst
        } else if host_can_write {
            CopyUsage::Dst
        } else {
            CopyUsage::Src
        }),
{
    if host_can_read && host_can_write {
        CopyUsage::SrcAndDst
    } else if host_can_write {
        CopyUsage::Dst
    } else {
        CopyUsage::Src
    }
}

/// The binding of a buffer that shaders may write or not, and that is a
/// uniform buffer or not: a buffer that shaders write is always bound as
/// storage.
pub fn binding_kind(shader_can_write: bool, is_uniform: bool) -> (r: BindingKind)
    ensures
        r == (if shader_can_write {
            BindingKind::StorageReadWrite
        } else if is_uniform {
            BindingKind::Uniform
        } else {
            BindingKind::StorageReadOnly
        }),
{
    if shader_can_write {
        BindingKind::StorageReadWrite
    } else if is_uniform {
        BindingKind::Uniform
    } else {
        BindingKind::StorageReadOnly
    }
}

/// The largest storage buffer, in bytes, is one less than this.
pub const STORAGE_LIMIT: u64 = 134217728;

/// The largest uniform buffer, in bytes, is one less than this.
pub const UNIFORM_LIMIT: u64 = 65536;

/// A buffer was too large to be used as a storage buffer.
#[derive(Clone, Copy, Debug, PartialEq, Eq, Structural)]
pub struct TooLargeForStorage;

impl TooLargeForStorage {
    /// What went wrong, for people.
    pub fn message(&self) -> (r: &'static str)
        ensures
            r@ == "Type is too large to be used in a storage buffer (max 134217728 bytes)"@,
    {
        "Type is too large to be used in a storage buffer (max 134217728 bytes)"
    }
}

/// A buffer was too large to be used as a uniform buffer.
#[derive(Clone, Copy, Debug, PartialEq, Eq, Structural)]
pub struct TooLargeForUniform;

impl TooLargeForUniform {
    /// What went wrong, for people.
    pub fn message(&self) -> (r: &'static str)
        ensures
            r@ == "Type is too large to be used in a uniform buffer (max 65536 bytes)"@,
    {
        "Type is too large to be used in a uniform buffer (max 65536 bytes)"
    }
}

/// The size of a storage buffer of `len` elements of `elem_size` bytes each,
/// where it is below the storage limit.
pub fn storage_size(len: usize, elem_size: usize) -> (r: Result<u64, TooLargeForStorage>)
    requires
        len * elem_size <= u64::MAX,
    ensures
        r == (if len * elem_size < STORAGE_LIMIT {
            Ok::<u64, TooLargeForStorage>((len * elem_size) as u64)
        } else {
            Err(TooLargeForStorage)
        }),
{
    let size = len as u64 * elem_size as u64;
    if size < 134217728 {
        Ok(size)
    } else {
        Err(TooLargeForStorage)
    }
}

/// The size of a uniform buffer of `len` elements of `elem_size` bytes each,
/// where it is below the uniform limit.
pub fn uniform_size(len: usize, elem_size: usize) -> (r: Result<u64, TooLargeForUniform>)
    requires
        len * elem_size <= u64::MAX,
    ensures
        r == (if len * elem_size < UNIFORM_LIMIT {
            Ok::<u64, TooLargeForUniform>((len * elem_size) as u64)
        } else {
            Err(TooLargeForUniform)
        }),
{
    let size = len as u64 * elem_size as u64;
    if size < 65536 {
        Ok(size)
    } else {
        Err(TooLargeForUniform)
    }
}

/// How the host may access a storage buffer.
pub trait HostStorageBufferMode {
    /// Whether the host may read the buffer.
    fn host_can_read() -> bool;

    /// The copy usages the buffer is created with besides storage; `None`
    /// where the host does not access it.
    fn copy_usage() -> Option<CopyUsage>;
}

/// Marker type indicating that the host does not access a storage buffer.
#[derive(Clone, Copy, Debug)]
pub struct HostHidden;

impl HostStorageBufferMode for HostHidden {
    fn host_can_read() -> (r: bool)
        ensures
            !r,
    {
        false
    }

    fn copy_usage() -> (r: Option<CopyUsage>)
        ensures
            r is None,
    {
        None
    }
}

impl HostStorageBufferMode for HostReadOnly {
    fn host_can_read() -> (r: bool)
        ensures
            r,
    {
        true
    }

    fn copy_usage() -> (r: Option<CopyUsage>)
        ensures
            r == Some(CopyUsage::Src),
    {
        Some(CopyUsage::Src)
    }
}

impl HostStorageBufferMode for HostWriteOnly {
    fn host_can_read() -> (r: bool)
        ensures
            !r,
    {
        false
    }

    fn copy_usage() -> (r: Option<CopyUsage>)
        ensures
            r == Some(CopyUsage::Dst),
    {
        Some(CopyUsage::Dst)
    }
}

impl HostStorageBufferMode for HostReadWrite {
    fn host_can_read() -> (r: bool)
        ensures
            r,
    {
        true
    }

    fn copy_usage() -> (r: Option<CopyUsage>)
        ensures
            r == Some(CopyUsage::SrcAndDst),
    {
        Some(CopyUsage::SrcAndDst)
    }
}

/// How shaders may access a storage buffer.
pub trait ShaderStorageBufferMode {
    /// Whether shaders may only read the buffer.
    fn readonly() -> bool;
}

impl ShaderStorageBufferMode for ShaderReadOnly {
    fn readonly() -> (r: bool)
        ensures
            r,
    {
        true
    }
}

impl ShaderStorageBufferMode for ShaderReadWrite {
    fn readonly() -> (r: bool)
        ensures
            !r,
    {
        false
    }
}

/// Whether a storage buffer needs a second buffer for the host to read it
/// back: only where the host reads what shaders may write.
pub fn needs_read_buffer(host_can_read: bool, shader_readonly: bool) -> (r: bool)
    ensures
        r == (host_can_read && !shader_readonly),
{
    host_can_read && !shader_readonly
}

/// The copy usages a storage buffer is created with besides storage.
pub trait StorageBufferMode {
    /// `None` where the host does not access the buffer.
    fn copy_usage() -> Option<CopyUsage>;
}

/// Marker type of a storage buffer that is not accessed by the host.
#[derive(Clone, Copy, Debug)]
pub struct Hidden;

impl StorageBufferMode for Hidden {
    fn copy_usage() -> (r: Option<CopyUsage>)
        ensures
            r is None,
    {
        None
    }
}

/// Marker type of a storage buffer that is only read by the host.
#[derive(Clone, Copy, Debug)]
pub struct ReadOnly;

impl StorageBufferMode for ReadOnly {
    fn copy_usage() -> (r: Option<CopyUsage>)
        ensures
            r == Some(CopyUsage::Src),
    {
        Some(CopyUsage::Src)
    }
}

/// Marker type of a storage buffer that is only written by the host.
#[derive(Clone, Copy, Debug)]
pub struct WriteOnly;

impl StorageBufferMode for WriteOnly {
    fn copy_usage() -> (r: Option<CopyUsage>)
        ensures
            r == Some(CopyUsage::Dst),
    {
        Some(CopyUsage::Dst)
    }
}

/// Marker type of a storage buffer that is read and written by the host.
#[derive(Clone, Copy, Debug)]
pub struct ReadWrite;

impl StorageBufferMode for ReadWrite {
    fn copy_usage() -> (r: Option<CopyUsage>)
        ensures
            r == Some(CopyUsage::SrcAndDst),
    {
        Some(CopyUsage::SrcAndDst)
    }
}

/// Where a buffer of type `B` is bound for a shader of type `S`: its group
/// and its binding within the group.
pub struct BufferGroupBinding<B, S> {
    group_index: u32,
    binding_index: u32,
    phantom: PhantomData<(B, S)>,
}

/// The annotation that binds a buffer in a shader's text:
/// `@group(g) @binding(b) `.
pub open spec fn binding_annotation(group: u32, binding: u32) -> Seq<char> {
    "@group("@ + decimal(group as nat) + ") @binding("@ + decimal(binding as nat) + ") "@
}

impl<B, S> BufferGroupBinding<B, S> {
    /// The group.
    pub closed spec fn group(&self) -> u32 {
        self.group_index
    }

    /// The binding within the group.
    pub closed spec fn binding(&self) -> u32 {
        self.binding_index
    }

    /// A binding at `group_index` and `binding_index`, which are not checked
    /// against the shader.
    pub fn new_unchecked(group_index: u32, binding_index: u32) -> (r: Self)
        ensures
            r.group() == group_index,
            r.binding() == binding_index,
    {
        BufferGroupBinding { group_index, binding_index, phantom: PhantomData }
    }

    /// The same binding, for a buffer of another type, which is not checked
    /// against the shader.
    pub fn unchecked_cast<C>(self) -> (r: BufferGroupBinding<C, S>)
        ensures
            r.group() == self.group(),
            r.binding() == self.binding(),
    {
        BufferGroupBinding {
            group_index: self.group_index,
            binding_index: self.binding_index,
            phantom: PhantomData,
        }
    }

    /// The annotation that binds the buffer in the shader's text.
    pub fn annotation(&self) -> (r: String)
        ensures
            r@ == binding_annotation(self.group(), self.binding()),
    {
        let mut s = "@group(".to_owned();
        push_decimal(&mut s, self.group_index as u64);
        push_str(&mut s, ") @binding(");
        push_decimal(&mut s, self.binding_index as u64);
        push_str(&mut s, ") ");
        s
    }
}

} // verus!
