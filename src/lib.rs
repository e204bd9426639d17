use vstd::prelude::*;

pub mod image;
pub mod session;
pub mod window;

verus! {

/// What kind of storage a path names.
#[derive(Clone, Copy, Debug, PartialEq, Eq, Structural)]
pub enum StorageKind {
    RegularFile,
    BlockDevice,
}

/// Why a differential copy stops without completing.
#[derive(Clone, Copy, Debug, PartialEq, Eq, Structural)]
pub enum CopyError {
    EmptySource,
    OpenError,
    DestinationTooSmall,
    DeviceQueryError,
    LengthMismatch,
    IoError,
}

/// What was learned about a path while probing it for its size.
#[derive(Clone, Copy, Debug, PartialEq, Eq, Structural)]
pub enum SizeProbe {
    /// The path could not be resolved to a canonical form.
    Unresolved,
    /// A block device, with the result of its capacity query.
    Device(Option<u64>),
    /// Anything else, with the metadata length if it could be read.
    Other(Option<u64>),
}

/// What must happen to the destination before comparing.
#[derive(Clone, Copy, Debug, PartialEq, Eq, Structural)]
pub enum Preparation {
    /// Resize the destination file to exactly this many bytes.
    Resize(u64),
    /// Leave the destination as it is.
    Keep,
}

pub open spec fn size_of_probe(p: SizeProbe) -> Result<u64, CopyError> {
    match p {
        SizeProbe::Unresolved => Ok(0),
        SizeProbe::Device(Some(n)) => Ok(n),
        SizeProbe::Device(None) => Err(CopyError::DeviceQueryError),
        SizeProbe::Other(Some(n)) => Ok(n),
        SizeProbe::Other(None) => Ok(0),
    }
}

/// Logical byte size of a target from what probing it found.
pub fn target_size(p: SizeProbe) -> (r: Result<u64, CopyError>)
    ensures
        r == size_of_probe(p),
{
    match p {
        SizeProbe::Unresolved => Ok(0),
        SizeProbe::Device(Some(n)) => Ok(n),
        SizeProbe::Device(None) => Err(CopyError::DeviceQueryError),
        SizeProbe::Other(Some(n)) => Ok(n),
        SizeProbe::Other(None) => Ok(0),
    }
}

pub open spec fn preparation_of(src_size: u64, dst_size: u64, dst_kind: StorageKind) -> Result<Preparation, CopyError> {
    if src_size == 0 {
        Err(CopyError::EmptySource)
    } else if dst_kind == StorageKind::BlockDevice {
        if dst_size < src_size {
            Err(CopyError::DestinationTooSmall)
        } else {
            Ok(Preparation::Keep)
        }
    } else if dst_size != src_size {
        Ok(Preparation::Resize(src_size))
    } else {
        Ok(Preparation::Keep)
    }
}

/// Decides how the destination is sized before the copy starts.
pub fn prepare_destination(src_size: u64, dst_size: u64, dst_kind: StorageKind) -> (r: Result<Preparation, CopyError>)
    ensures
        r == preparation_of(src_size, dst_size, dst_kind),
{
    if src_size == 0 {
        Err(CopyError::EmptySource)
    } else if dst_kind == StorageKind::BlockDevice {
        if dst_size < src_size {
            Err(CopyError::DestinationTooSmall)
        } else {
            Ok(Preparation::Keep)
        }
    } else if dst_size != src_size {
        Ok(Preparation::Resize(src_size))
    } else {
        Ok(Preparation::Keep)
    }
}

/// A file destination is sized to the source exactly; a block device that is
/// too small is refused.
pub proof fn lemma_truncation_policy(src_size: u64, dst_size: u64, dst_kind: StorageKind)
    requires
        src_size > 0,
    ensures
        dst_kind == StorageKind::RegularFile && dst_size == 0 ==> preparation_of(src_size, dst_size, dst_kind)
            == Ok::<Preparation, CopyError>(Preparation::Resize(src_size)),
        dst_kind == StorageKind::BlockDevice && dst_size < src_size ==> preparation_of(src_size, dst_size, dst_kind)
            == Err::<Preparation, CopyError>(CopyError::DestinationTooSmall),
{
}

} // verus!
