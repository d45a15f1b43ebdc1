//! What a transfer needs to know of an entry of the partition table.

use vstd::prelude::*;

verus! {

/// The processor that a partition belongs to.
#[derive(Debug, Clone, Copy, PartialEq, Eq, Structural)]
pub enum BinaryType {
    /// The application processor.
    ApplicationProcessor,
    /// The modem.
    CommunicationProcessor,
}

impl BinaryType {
    /// The number that stands for the processor in the partition table and on the wire.
    pub open spec fn spec_code(self) -> u32 {
        match self {
            BinaryType::ApplicationProcessor => 0,
            BinaryType::CommunicationProcessor => 1,
        }
    }

    /// The number that stands for the processor in the partition table and on the wire.
    pub fn code(self) -> (code: u32)
        ensures
            code == self.spec_code(),
    {
        match self {
            BinaryType::ApplicationProcessor => 0,
            BinaryType::CommunicationProcessor => 1,
        }
    }
}

/// The storage that a partition lies on.
#[derive(Debug, Clone, Copy, PartialEq, Eq, Structural)]
pub enum DeviceType {
    /// OneNAND flash.
    OneNand,
    /// A file.
    File,
    /// eMMC.
    MMC,
    /// All storage.
    All,
    /// UFS.
    UFS,
}

impl DeviceType {
    /// The number that stands for the storage in the partition table and on the wire.
    pub open spec fn spec_code(self) -> u32 {
        match self {
            DeviceType::OneNand => 0,
            DeviceType::File => 1,
            DeviceType::MMC => 2,
            DeviceType::All => 3,
            DeviceType::UFS => 8,
        }
    }

    /// The number that stands for the storage in the partition table and on the wire.
    pub fn code(self) -> (code: u32)
        ensures
            code == self.spec_code(),
    {
        match self {
            DeviceType::OneNand => 0,
            DeviceType::File => 1,
            DeviceType::MMC => 2,
            DeviceType::All => 3,
            DeviceType::UFS => 8,
        }
    }
}

/// An entry of the partition table.
#[derive(Debug, Clone, Copy, PartialEq, Eq, Structural)]
pub struct PitEntry {
    /// Processor that the partition belongs to.
    pub binary_type: BinaryType,
    /// Storage that the partition lies on.
    pub device_type: DeviceType,
    /// Number of the partition.
    pub partition_id: u32,
}

} // verus!
