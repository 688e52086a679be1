//! Decoding of the PCI class code and subclass bytes of a configuration header.
//!
//! Every decoder maps a byte to the variant that names it and keeps bytes
//! without a name in an `Unknown` variant.  The contracts say this through a
//! `code` function, which gives back the byte a value stands for, and an
//! `is_canonical` predicate, which holds when `Unknown` carries only bytes
//! without a name: together they determine the decoded value.

use vstd::prelude::*;

verus! {

/// Subclasses of devices built before class codes were defined.
#[derive(Debug, Clone, Copy, PartialEq, Eq, Structural)]
pub enum UnclassifiedSubclass {
    VGACompatible,
    NonVGACompatible,
    Unknown(u8),
}

impl UnclassifiedSubclass {
    /// The subclass byte that this value stands for.
    pub open spec fn code(self) -> u8 {
        match self {
            Self::VGACompatible => 0x00,
            Self::NonVGACompatible => 0x01,
            Self::Unknown(x) => x,
        }
    }

    /// `Unknown` carries only a byte that no other variant names.
    pub open spec fn is_canonical(self) -> bool {
        match self {
            Self::Unknown(x) => x != 0x00 && x != 0x01,
            _ => true,
        }
    }

    /// Decodes a subclass byte.
    pub fn from_u8(subclass: u8) -> (r: Self)
        ensures
            r.code() == subclass,
            r.is_canonical(),
    {
        match subclass {
            0x00 => Self::VGACompatible,
            0x01 => Self::NonVGACompatible,
            x => Self::Unknown(x),
        }
    }

    /// The bytes of the named subclasses, from the PCI class code table, and
    /// that `Unknown` never carries one of them: with `from_u8`'s contract
    /// they fix the variant that every byte decodes to.
    pub proof fn lemma_named_subclasses()
        ensures
            Self::VGACompatible.code() == 0x00,
            Self::NonVGACompatible.code() == 0x01,
            forall|x: u8| #[trigger] Self::Unknown(x).is_canonical() ==> x != 0x00 && x != 0x01,
    {
    }

    /// Two canonical values that stand for the same byte are the same value,
    /// so `from_u8(v.code()) == v` for every canonical `v`.
    pub proof fn lemma_code_determines_value(a: Self, b: Self)
        requires
            a.is_canonical(),
            b.is_canonical(),
            a.code() == b.code(),
        ensures
            a == b,
    {
    }
}

/// Subclasses of mass storage controllers (class 0x01).
#[derive(Debug, Clone, Copy, PartialEq, Eq, Structural)]
pub enum MassStorageControllerSubclass {
    SCSI,
    IDE,
    Floppy,
    IPI,
    RAID,
    ATA,
    SATA,
    SAS,
    NVM,
    Other,
    Unknown(u8),
}

impl MassStorageControllerSubclass {
    /// The subclass byte that this value stands for.
    pub open spec fn code(self) -> u8 {
        match self {
            Self::SCSI => 0x00,
            Self::IDE => 0x01,
            Self::Floppy => 0x02,
            Self::IPI => 0x03,
            Self::RAID => 0x04,
            Self::ATA => 0x05,
            Self::SATA => 0x06,
            Self::SAS => 0x07,
            Self::NVM => 0x08,
            Self::Other => 0x80,
            Self::Unknown(x) => x,
        }
    }

    /// `Unknown` carries only a byte that no other variant names.
    pub open spec fn is_canonical(self) -> bool {
        match self {
            Self::Unknown(x) => x != 0x00 && x != 0x01 && x != 0x02 && x != 0x03 && x != 0x04 && x != 0x05 && x != 0x06 && x != 0x07 && x != 0x08 && x != 0x80,
            _ => true,
        }
    }

    /// Decodes a subclass byte.
    pub fn from_u8(subclass: u8) -> (r: Self)
        ensures
            r.code() == subclass,
            r.is_canonical(),
    {
        match subclass {
            0x00 => Self::SCSI,
            0x01 => Self::IDE,
            0x02 => Self::Floppy,
            0x03 => Self::IPI,
            0x04 => Self::RAID,
            0x05 => Self::ATA,
            0x06 => Self::SATA,
            0x07 => Self::SAS,
            0x08 => Self::NVM,
            0x80 => Self::Other,
            x => Self::Unknown(x),
        }
    }

    /// The bytes of the named subclasses, from the PCI class code table, and
    /// that `Unknown` never carries one of them: with `from_u8`'s contract
    /// they fix the variant that every byte decodes to.
    pub proof fn lemma_named_subclasses()
        ensures
            Self::SCSI.code() == 0x00,
            Self::IDE.code() == 0x01,
            Self::Floppy.code() == 0x02,
            Self::IPI.code() == 0x03,
            Self::RAID.code() == 0x04,
            Self::ATA.code() == 0x05,
            Self::SATA.code() == 0x06,
            Self::SAS.code() == 0x07,
            Self::NVM.code() == 0x08,
            Self::Other.code() == 0x80,
            forall|x: u8| #[trigger] Self::Unknown(x).is_canonical() ==> x != 0x00 && x != 0x01 && x != 0x02 && x != 0x03 && x != 0x04 && x != 0x05 && x != 0x06 && x != 0x07 && x != 0x08 && x != 0x80,
    {
    }

    /// Two canonical values that stand for the same byte are the same value,
    /// so `from_u8(v.code()) == v` for every canonical `v`.
    pub proof fn lemma_code_determines_value(a: Self, b: Self)
        requires
            a.is_canonical(),
            b.is_canonical(),
            a.code() == b.code(),
        ensures
            a == b,
    {
    }
}

/// Subclasses of network controllers (class 0x02).
#[derive(Debug, Clone, Copy, PartialEq, Eq, Structural)]
pub enum NetworkControllerSubclass {
    Ethernet,
    TokenRing,
    FDDI,
    ATM,
    ISDN,
    WorldFip,
    PICGMG,
    Infiniband,
    Fabric,
    Other,
    Unknown(u8),
}

impl NetworkControllerSubclass {
    /// The subclass byte that this value stands for.
    pub open spec fn code(self) -> u8 {
        match self {
            Self::Ethernet => 0x00,
            Self::TokenRing => 0x01,
            Self::FDDI => 0x02,
            Self::ATM => 0x03,
            Self::ISDN => 0x04,
            Self::WorldFip => 0x05,
            Self::PICGMG => 0x06,
            Self::Infiniband => 0x07,
            Self::Fabric => 0x08,
            Self::Other => 0x80,
            Self::Unknown(x) => x,
        }
    }

    /// `Unknown` carries only a byte that no other variant names.
    pub open spec fn is_canonical(self) -> bool {
        match self {
            Self::Unknown(x) => x != 0x00 && x != 0x01 && x != 0x02 && x != 0x03 && x != 0x04 && x != 0x05 && x != 0x06 && x != 0x07 && x != 0x08 && x != 0x80,
            _ => true,
        }
    }

    /// Decodes a subclass byte.
    pub fn from_u8(subclass: u8) -> (r: Self)
        ensures
            r.code() == subclass,
            r.is_canonical(),
    {
        match subclass {
            0x00 => Self::Ethernet,
            0x01 => Self::TokenRing,
            0x02 => Self::FDDI,
            0x03 => Self::ATM,
            0x04 => Self::ISDN,
            0x05 => Self::WorldFip,
            0x06 => Self::PICGMG,
            0x07 => Self::Infiniband,
            0x08 => Self::Fabric,
            0x80 => Self::Other,
            x => Self::Unknown(x),
        }
    }

    /// The bytes of the named subclasses, from the PCI class code table, and
    /// that `Unknown` never carries one of them: with `from_u8`'s contract
    /// they fix the variant that every byte decodes to.
    pub proof fn lemma_named_subclasses()
        ensures
            Self::Ethernet.code() == 0x00,
            Self::TokenRing.code() == 0x01,
            Self::FDDI.code() == 0x02,
            Self::ATM.code() == 0x03,
            Self::ISDN.code() == 0x04,
            Self::WorldFip.code() == 0x05,
            Self::PICGMG.code() == 0x06,
            Self::Infiniband.code() == 0x07,
            Self::Fabric.code() == 0x08,
            Self::Other.code() == 0x80,
            forall|x: u8| #[trigger] Self::Unknown(x).is_canonical() ==> x != 0x00 && x != 0x01 && x != 0x02 && x != 0x03 && x != 0x04 && x != 0x05 && x != 0x06 && x != 0x07 && x != 0x08 && x != 0x80,
    {
    }

    /// Two canonical values that stand for the same byte are the same value,
    /// so `from_u8(v.code()) == v` for every canonical `v`.
    pub proof fn lemma_code_determines_value(a: Self, b: Self)
        requires
            a.is_canonical(),
            b.is_canonical(),
            a.code() == b.code(),
        ensures
            a == b,
    {
    }
}

/// Subclasses of display controllers (class 0x03).
#[derive(Debug, Clone, Copy, PartialEq, Eq, Structural)]
pub enum DisplayControllerSubclass {
    VGACompatible,
    XGACompatible,
    ThreeDController,
    Other,
    Unknown(u8),
}

impl DisplayControllerSubclass {
    /// The subclass byte that this value stands for.
    pub open spec fn code(self) -> u8 {
        match self {
            Self::VGACompatible => 0x00,
            Self::XGACompatible => 0x01,
            Self::ThreeDController => 0x02,
            Self::Other => 0x80,
            Self::Unknown(x) => x,
        }
    }

    /// `Unknown` carries only a byte that no other variant names.
    pub open spec fn is_canonical(self) -> bool {
        match self {
            Self::Unknown(x) => x != 0x00 && x != 0x01 && x != 0x02 && x != 0x80,
            _ => true,
        }
    }

    /// Decodes a subclass byte.
    pub fn from_u8(subclass: u8) -> (r: Self)
        ensures
            r.code() == subclass,
            r.is_canonical(),
    {
        match subclass {
            0x00 => Self::VGACompatible,
            0x01 => Self::XGACompatible,
            0x02 => Self::ThreeDController,
            0x80 => Self::Other,
            x => Self::Unknown(x),
        }
    }

    /// The bytes of the named subclasses, from the PCI class code table, and
    /// that `Unknown` never carries one of them: with `from_u8`'s contract
    /// they fix the variant that every byte decodes to.
    pub proof fn lemma_named_subclasses()
        ensures
            Self::VGACompatible.code() == 0x00,
            Self::XGACompatible.code() == 0x01,
            Self::ThreeDController.code() == 0x02,
            Self::Other.code() == 0x80,
            forall|x: u8| #[trigger] Self::Unknown(x).is_canonical() ==> x != 0x00 && x != 0x01 && x != 0x02 && x != 0x80,
    {
    }

    /// Two canonical values that stand for the same byte are the same value,
    /// so `from_u8(v.code()) == v` for every canonical `v`.
    pub proof fn lemma_code_determines_value(a: Self, b: Self)
        requires
            a.is_canonical(),
            b.is_canonical(),
            a.code() == b.code(),
        ensures
            a == b,
    {
    }
}

/// Subclasses of multimedia controllers (class 0x04).
#[derive(Debug, Clone, Copy, PartialEq, Eq, Structural)]
pub enum MultimediaControllerSubclass {
    Video,
    Audio,
    Telephony,
    Other,
    Unknown(u8),
}

impl MultimediaControllerSubclass {
    /// The subclass byte that this value stands for.
    pub open spec fn code(self) -> u8 {
        match self {
            Self::Video => 0x00,
            Self::Audio => 0x01,
            Self::Telephony => 0x02,
            Self::Other => 0x80,
            Self::Unknown(x) => x,
        }
    }

    /// `Unknown` carries only a byte that no other variant names.
    pub open spec fn is_canonical(self) -> bool {
        match self {
            Self::Unknown(x) => x != 0x00 && x != 0x01 && x != 0x02 && x != 0x80,
            _ => true,
        }
    }

    /// Decodes a subclass byte.
    pub fn from_u8(subclass: u8) -> (r: Self)
        ensures
            r.code() == subclass,
            r.is_canonical(),
    {
        match subclass {
            0x00 => Self::Video,
            0x01 => Self::Audio,
            0x02 => Self::Telephony,
            0x80 => Self::Other,
            x => Self::Unknown(x),
        }
    }

    /// The bytes of the named subclasses, from the PCI class code table, and
    /// that `Unknown` never carries one of them: with `from_u8`'s contract
    /// they fix the variant that every byte decodes to.
    pub proof fn lemma_named_subclasses()
        ensures
            Self::Video.code() == 0x00,
            Self::Audio.code() == 0x01,
            Self::Telephony.code() == 0x02,
            Self::Other.code() == 0x80,
            forall|x: u8| #[trigger] Self::Unknown(x).is_canonical() ==> x != 0x00 && x != 0x01 && x != 0x02 && x != 0x80,
    {
    }

    /// Two canonical values that stand for the same byte are the same value,
    /// so `from_u8(v.code()) == v` for every canonical `v`.
    pub proof fn lemma_code_determines_value(a: Self, b: Self)
        requires
            a.is_canonical(),
            b.is_canonical(),
            a.code() == b.code(),
        ensures
            a == b,
    {
    }
}

/// Subclasses of memory controllers (class 0x05).
#[derive(Debug, Clone, Copy, PartialEq, Eq, Structural)]
pub enum MemoryControllerSubclass {
    RAM,
    Flash,
    Other,
    Unknown(u8),
}

impl MemoryControllerSubclass {
    /// The subclass byte that this value stands for.
    pub open spec fn code(self) -> u8 {
        match self {
            Self::RAM => 0x00,
            Self::Flash => 0x01,
            Self::Other => 0x80,
            Self::Unknown(x) => x,
        }
    }

    /// `Unknown` carries only a byte that no other variant names.
    pub open spec fn is_canonical(self) -> bool {
        match self {
            Self::Unknown(x) => x != 0x00 && x != 0x01 && x != 0x80,
            _ => true,
        }
    }

    /// Decodes a subclass byte.
    pub fn from_u8(subclass: u8) -> (r: Self)
        ensures
            r.code() == subclass,
            r.is_canonical(),
    {
        match subclass {
            0x00 => Self::RAM,
            0x01 => Self::Flash,
            0x80 => Self::Other,
            x => Self::Unknown(x),
        }
    }

    /// The bytes of the named subclasses, from the PCI class code table, and
    /// that `Unknown` never carries one of them: with `from_u8`'s contract
    /// they fix the variant that every byte decodes to.
    pub proof fn lemma_named_subclasses()
        ensures
            Self::RAM.code() == 0x00,
            Self::Flash.code() == 0x01,
            Self::Other.code() == 0x80,
            forall|x: u8| #[trigger] Self::Unknown(x).is_canonical() ==> x != 0x00 && x != 0x01 && x != 0x80,
    {
    }

    /// Two canonical values that stand for the same byte are the same value,
    /// so `from_u8(v.code()) == v` for every canonical `v`.
    pub proof fn lemma_code_determines_value(a: Self, b: Self)
        requires
            a.is_canonical(),
            b.is_canonical(),
            a.code() == b.code(),
        ensures
            a == b,
    {
    }
}

/// Subclasses of bridge devices (class 0x06).
#[derive(Debug, Clone, Copy, PartialEq, Eq, Structural)]
pub enum BridgeDeviceSubclass {
    Host,
    ISA,
    EISA,
    MCA,
    PCItoPCI,
    PCMCIA,
    NuBus,
    CardBus,
    RACEway,
    PCItoPCI2,
    InfinibandtoPCI,
    Other,
    Unknown(u8),
}

impl BridgeDeviceSubclass {
    /// The subclass byte that this value stands for.
    pub open spec fn code(self) -> u8 {
        match self {
            Self::Host => 0x00,
            Self::ISA => 0x01,
            Self::EISA => 0x02,
            Self::MCA => 0x03,
            Self::PCItoPCI => 0x04,
            Self::PCMCIA => 0x05,
            Self::NuBus => 0x06,
            Self::CardBus => 0x07,
            Self::RACEway => 0x08,
            Self::PCItoPCI2 => 0x09,
            Self::InfinibandtoPCI => 0x0a,
            Self::Other => 0x80,
            Self::Unknown(x) => x,
        }
    }

    /// `Unknown` carries only a byte that no other variant names.
    pub open spec fn is_canonical(self) -> bool {
        match self {
            Self::Unknown(x) => x != 0x00 && x != 0x01 && x != 0x02 && x != 0x03 && x != 0x04 && x != 0x05 && x != 0x06 && x != 0x07 && x != 0x08 && x != 0x09 && x != 0x0a && x != 0x80,
            _ => true,
        }
    }

    /// Decodes a subclass byte.
    pub fn from_u8(subclass: u8) -> (r: Self)
        ensures
            r.code() == subclass,
            r.is_canonical(),
    {
        match subclass {
            0x00 => Self::Host,
            0x01 => Self::ISA,
            0x02 => Self::EISA,
            0x03 => Self::MCA,
            0x04 => Self::PCItoPCI,
            0x05 => Self::PCMCIA,
            0x06 => Self::NuBus,
            0x07 => Self::CardBus,
            0x08 => Self::RACEway,
            0x09 => Self::PCItoPCI2,
            0x0a => Self::InfinibandtoPCI,
            0x80 => Self::Other,
            x => Self::Unknown(x),
        }
    }

    /// The bytes of the named subclasses, from the PCI class code table, and
    /// that `Unknown` never carries one of them: with `from_u8`'s contract
    /// they fix the variant that every byte decodes to.
    pub proof fn lemma_named_subclasses()
        ensures
            Self::Host.code() == 0x00,
            Self::ISA.code() == 0x01,
            Self::EISA.code() == 0x02,
            Self::MCA.code() == 0x03,
            Self::PCItoPCI.code() == 0x04,
            Self::PCMCIA.code() == 0x05,
            Self::NuBus.code() == 0x06,
            Self::CardBus.code() == 0x07,
            Self::RACEway.code() == 0x08,
            Self::PCItoPCI2.code() == 0x09,
            Self::InfinibandtoPCI.code() == 0x0a,
            Self::Other.code() == 0x80,
            forall|x: u8| #[trigger] Self::Unknown(x).is_canonical() ==> x != 0x00 && x != 0x01 && x != 0x02 && x != 0x03 && x != 0x04 && x != 0x05 && x != 0x06 && x != 0x07 && x != 0x08 && x != 0x09 && x != 0x0a && x != 0x80,
    {
    }

    /// Two canonical values that stand for the same byte are the same value,
    /// so `from_u8(v.code()) == v` for every canonical `v`.
    pub proof fn lemma_code_determines_value(a: Self, b: Self)
        requires
            a.is_canonical(),
            b.is_canonical(),
            a.code() == b.code(),
        ensures
            a == b,
    {
    }
}

/// Subclasses of simple communication controllers (class 0x07).
#[derive(Debug, Clone, Copy, PartialEq, Eq, Structural)]
pub enum SimpleCommunicationControllerSubclass {
    Serial,
    Parallel,
    MultiportSerial,
    Modem,
    GPIB,
    SmartCard,
    Other,
    Unknown(u8),
}

impl SimpleCommunicationControllerSubclass {
    /// The subclass byte that this value stands for.
    pub open spec fn code(self) -> u8 {
        match self {
            Self::Serial => 0x00,
            Self::Parallel => 0x01,
            Self::MultiportSerial => 0x02,
            Self::Modem => 0x03,
            Self::GPIB => 0x04,
            Self::SmartCard => 0x05,
            Self::Other => 0x80,
            Self::Unknown(x) => x,
        }
    }

    /// `Unknown` carries only a byte that no other variant names.
    pub open spec fn is_canonical(self) -> bool {
        match self {
            Self::Unknown(x) => x != 0x00 && x != 0x01 && x != 0x02 && x != 0x03 && x != 0x04 && x != 0x05 && x != 0x80,
            _ => true,
        }
    }

    /// Decodes a subclass byte.
    pub fn from_u8(subclass: u8) -> (r: Self)
        ensures
            r.code() == subclass,
            r.is_canonical(),
    {
        match subclass {
            0x00 => Self::Serial,
            0x01 => Self::Parallel,
            0x02 => Self::MultiportSerial,
            0x03 => Self::Modem,
            0x04 => Self::GPIB,
            0x05 => Self::SmartCard,
            0x80 => Self::Other,
            x => Self::Unknown(x),
        }
    }

    /// The bytes of the named subclasses, from the PCI class code table, and
    /// that `Unknown` never carries one of them: with `from_u8`'s contract
    /// they fix the variant that every byte decodes to.
    pub proof fn lemma_named_subclasses()
        ensures
            Self::Serial.code() == 0x00,
            Self::Parallel.code() == 0x01,
            Self::MultiportSerial.code() == 0x02,
            Self::Modem.code() == 0x03,
            Self::GPIB.code() == 0x04,
            Self::SmartCard.code() == 0x05,
            Self::Other.code() == 0x80,
            forall|x: u8| #[trigger] Self::Unknown(x).is_canonical() ==> x != 0x00 && x != 0x01 && x != 0x02 && x != 0x03 && x != 0x04 && x != 0x05 && x != 0x80,
    {
    }

    /// Two canonical values that stand for the same byte are the same value,
    /// so `from_u8(v.code()) == v` for every canonical `v`.
    pub proof fn lemma_code_determines_value(a: Self, b: Self)
        requires
            a.is_canonical(),
            b.is_canonical(),
            a.code() == b.code(),
        ensures
            a == b,
    {
    }
}

/// Subclasses of base system peripherals (class 0x08).
#[derive(Debug, Clone, Copy, PartialEq, Eq, Structural)]
pub enum BaseSystemPeripheralSubclass {
    PIC,
    DMA,
    Timer,
    RTC,
    PCIHotPlug,
    SDHost,
    IOMMU,
    Other,
    Unknown(u8),
}

impl BaseSystemPeripheralSubclass {
    /// The subclass byte that this value stands for.
    pub open spec fn code(self) -> u8 {
        match self {
            Self::PIC => 0x00,
            Self::DMA => 0x01,
            Self::Timer => 0x02,
            Self::RTC => 0x03,
            Self::PCIHotPlug => 0x04,
            Self::SDHost => 0x05,
            Self::IOMMU => 0x06,
            Self::Other => 0x80,
            Self::Unknown(x) => x,
        }
    }

    /// `Unknown` carries only a byte that no other variant names.
    pub open spec fn is_canonical(self) -> bool {
        match self {
            Self::Unknown(x) => x != 0x00 && x != 0x01 && x != 0x02 && x != 0x03 && x != 0x04 && x != 0x05 && x != 0x06 && x != 0x80,
            _ => true,
        }
    }

    /// Decodes a subclass byte.
    pub fn from_u8(subclass: u8) -> (r: Self)
        ensures
            r.code() == subclass,
            r.is_canonical(),
    {
        match subclass {
            0x00 => Self::PIC,
            0x01 => Self::DMA,
            0x02 => Self::Timer,
            0x03 => Self::RTC,
            0x04 => Self::PCIHotPlug,
            0x05 => Self::SDHost,
            0x06 => Self::IOMMU,
            0x80 => Self::Other,
            x => Self::Unknown(x),
        }
    }

    /// The bytes of the named subclasses, from the PCI class code table, and
    /// that `Unknown` never carries one of them: with `from_u8`'s contract
    /// they fix the variant that every byte decodes to.
    pub proof fn lemma_named_subclasses()
        ensures
            Self::PIC.code() == 0x00,
            Self::DMA.code() == 0x01,
            Self::Timer.code() == 0x02,
            Self::RTC.code() == 0x03,
            Self::PCIHotPlug.code() == 0x04,
            Self::SDHost.code() == 0x05,
            Self::IOMMU.code() == 0x06,
            Self::Other.code() == 0x80,
            forall|x: u8| #[trigger] Self::Unknown(x).is_canonical() ==> x != 0x00 && x != 0x01 && x != 0x02 && x != 0x03 && x != 0x04 && x != 0x05 && x != 0x06 && x != 0x80,
    {
    }

    /// Two canonical values that stand for the same byte are the same value,
    /// so `from_u8(v.code()) == v` for every canonical `v`.
    pub proof fn lemma_code_determines_value(a: Self, b: Self)
        requires
            a.is_canonical(),
            b.is_canonical(),
            a.code() == b.code(),
        ensures
            a == b,
    {
    }
}

/// Subclasses of input device controllers (class 0x09).
#[derive(Debug, Clone, Copy, PartialEq, Eq, Structural)]
pub enum InputDeviceControllerSubclass {
    Keyboard,
    DigitizerPen,
    Mouse,
    Scanner,
    Gameport,
    Other,
    Unknown(u8),
}

impl InputDeviceControllerSubclass {
    /// The subclass byte that this value stands for.
    pub open spec fn code(self) -> u8 {
        match self {
            Self::Keyboard => 0x00,
            Self::DigitizerPen => 0x01,
            Self::Mouse => 0x02,
            Self::Scanner => 0x03,
            Self::Gameport => 0x04,
            Self::Other => 0x80,
            Self::Unknown(x) => x,
        }
    }

    /// `Unknown` carries only a byte that no other variant names.
    pub open spec fn is_canonical(self) -> bool {
        match self {
            Self::Unknown(x) => x != 0x00 && x != 0x01 && x != 0x02 && x != 0x03 && x != 0x04 && x != 0x80,
            _ => true,
        }
    }

    /// Decodes a subclass byte.
    pub fn from_u8(subclass: u8) -> (r: Self)
        ensures
            r.code() == subclass,
            r.is_canonical(),
    {
        match subclass {
            0x00 => Self::Keyboard,
            0x01 => Self::DigitizerPen,
            0x02 => Self::Mouse,
            0x03 => Self::Scanner,
            0x04 => Self::Gameport,
            0x80 => Self::Other,
            x => Self::Unknown(x),
        }
    }

    /// The bytes of the named subclasses, from the PCI class code table, and
    /// that `Unknown` never carries one of them: with `from_u8`'s contract
    /// they fix the variant that every byte decodes to.
    pub proof fn lemma_named_subclasses()
        ensures
            Self::Keyboard.code() == 0x00,
            Self::DigitizerPen.code() == 0x01,
            Self::Mouse.code() == 0x02,
            Self::Scanner.code() == 0x03,
            Self::Gameport.code() == 0x04,
            Self::Other.code() == 0x80,
            forall|x: u8| #[trigger] Self::Unknown(x).is_canonical() ==> x != 0x00 && x != 0x01 && x != 0x02 && x != 0x03 && x != 0x04 && x != 0x80,
    {
    }

    /// Two canonical values that stand for the same byte are the same value,
    /// so `from_u8(v.code()) == v` for every canonical `v`.
    pub proof fn lemma_code_determines_value(a: Self, b: Self)
        requires
            a.is_canonical(),
            b.is_canonical(),
            a.code() == b.code(),
        ensures
            a == b,
    {
    }
}

/// Subclasses of docking stations (class 0x0a).
#[derive(Debug, Clone, Copy, PartialEq, Eq, Structural)]
pub enum DockingStationSubclass {
    Generic,
    Other,
    Unknown(u8),
}

impl DockingStationSubclass {
    /// The subclass byte that this value stands for.
    pub open spec fn code(self) -> u8 {
        match self {
            Self::Generic => 0x00,
            Self::Other => 0x80,
            Self::Unknown(x) => x,
        }
    }

    /// `Unknown` carries only a byte that no other variant names.
    pub open spec fn is_canonical(self) -> bool {
        match self {
            Self::Unknown(x) => x != 0x00 && x != 0x80,
            _ => true,
        }
    }

    /// Decodes a subclass byte.
    pub fn from_u8(subclass: u8) -> (r: Self)
        ensures
            r.code() == subclass,
            r.is_canonical(),
    {
        match subclass {
            0x00 => Self::Generic,
            0x80 => Self::Other,
            x => Self::Unknown(x),
        }
    }

    /// The bytes of the named subclasses, from the PCI class code table, and
    /// that `Unknown` never carries one of them: with `from_u8`'s contract
    /// they fix the variant that every byte decodes to.
    pub proof fn lemma_named_subclasses()
        ensures
            Self::Generic.code() == 0x00,
            Self::Other.code() == 0x80,
            forall|x: u8| #[trigger] Self::Unknown(x).is_canonical() ==> x != 0x00 && x != 0x80,
    {
    }

    /// Two canonical values that stand for the same byte are the same value,
    /// so `from_u8(v.code()) == v` for every canonical `v`.
    pub proof fn lemma_code_determines_value(a: Self, b: Self)
        requires
            a.is_canonical(),
            b.is_canonical(),
            a.code() == b.code(),
        ensures
            a == b,
    {
    }
}

/// Subclasses of processors (class 0x0b).
#[derive(Debug, Clone, Copy, PartialEq, Eq, Structural)]
pub enum ProcessorSubclass {
    I386,
    I486,
    Pentium,
    PentiumPro,
    Alpha,
    PowerPC,
    MIPS,
    CoProcessor,
    Other,
    Unknown(u8),
}

impl ProcessorSubclass {
    /// The subclass byte that this value stands for.
    pub open spec fn code(self) -> u8 {
        match self {
            Self::I386 => 0x00,
            Self::I486 => 0x01,
            Self::Pentium => 0x02,
            Self::PentiumPro => 0x03,
            Self::Alpha => 0x10,
            Self::PowerPC => 0x20,
            Self::MIPS => 0x30,
            Self::CoProcessor => 0x40,
            Self::Other => 0x80,
            Self::Unknown(x) => x,
        }
    }

    /// `Unknown` carries only a byte that no other variant names.
    pub open spec fn is_canonical(self) -> bool {
        match self {
            Self::Unknown(x) => x != 0x00 && x != 0x01 && x != 0x02 && x != 0x03 && x != 0x10 && x != 0x20 && x != 0x30 && x != 0x40 && x != 0x80,
            _ => true,
        }
    }

    /// Decodes a subclass byte.
    pub fn from_u8(subclass: u8) -> (r: Self)
        ensures
            r.code() == subclass,
            r.is_canonical(),
    {
        match subclass {
            0x00 => Self::I386,
            0x01 => Self::I486,
            0x02 => Self::Pentium,
            0x03 => Self::PentiumPro,
            0x10 => Self::Alpha,
            0x20 => Self::PowerPC,
            0x30 => Self::MIPS,
            0x40 => Self::CoProcessor,
            0x80 => Self::Other,
            x => Self::Unknown(x),
        }
    }

    /// The bytes of the named subclasses, from the PCI class code table, and
    /// that `Unknown` never carries one of them: with `from_u8`'s contract
    /// they fix the variant that every byte decodes to.
    pub proof fn lemma_named_subclasses()
        ensures
            Self::I386.code() == 0x00,
            Self::I486.code() == 0x01,
            Self::Pentium.code() == 0x02,
            Self::PentiumPro.code() == 0x03,
            Self::Alpha.code() == 0x10,
            Self::PowerPC.code() == 0x20,
            Self::MIPS.code() == 0x30,
            Self::CoProcessor.code() == 0x40,
            Self::Other.code() == 0x80,
            forall|x: u8| #[trigger] Self::Unknown(x).is_canonical() ==> x != 0x00 && x != 0x01 && x != 0x02 && x != 0x03 && x != 0x10 && x != 0x20 && x != 0x30 && x != 0x40 && x != 0x80,
    {
    }

    /// Two canonical values that stand for the same byte are the same value,
    /// so `from_u8(v.code()) == v` for every canonical `v`.
    pub proof fn lemma_code_determines_value(a: Self, b: Self)
        requires
            a.is_canonical(),
            b.is_canonical(),
            a.code() == b.code(),
        ensures
            a == b,
    {
    }
}

/// Subclasses of serial bus controllers (class 0x0c).
#[derive(Debug, Clone, Copy, PartialEq, Eq, Structural)]
pub enum SerialBusControllerSubclass {
    Firewire,
    ACCESS,
    SSA,
    USB,
    FibreChannel,
    SMBus,
    Infiniband,
    IPMI,
    SERCOS,
    CANbus,
    Other,
    Unknown(u8),
}

impl SerialBusControllerSubclass {
    /// The subclass byte that this value stands for.
    pub open spec fn code(self) -> u8 {
        match self {
            Self::Firewire => 0x00,
            Self::ACCESS => 0x01,
            Self::SSA => 0x02,
            Self::USB => 0x03,
            Self::FibreChannel => 0x04,
            Self::SMBus => 0x05,
            Self::Infiniband => 0x06,
            Self::IPMI => 0x07,
            Self::SERCOS => 0x08,
            Self::CANbus => 0x09,
            Self::Other => 0x80,
            Self::Unknown(x) => x,
        }
    }

    /// `Unknown` carries only a byte that no other variant names.
    pub open spec fn is_canonical(self) -> bool {
        match self {
            Self::Unknown(x) => x != 0x00 && x != 0x01 && x != 0x02 && x != 0x03 && x != 0x04 && x != 0x05 && x != 0x06 && x != 0x07 && x != 0x08 && x != 0x09 && x != 0x80,
            _ => true,
        }
    }

    /// Decodes a subclass byte.
    pub fn from_u8(subclass: u8) -> (r: Self)
        ensures
            r.code() == subclass,
            r.is_canonical(),
    {
        match subclass {
            0x00 => Self::Firewire,
            0x01 => Self::ACCESS,
            0x02 => Self::SSA,
            0x03 => Self::USB,
            0x04 => Self::FibreChannel,
            0x05 => Self::SMBus,
            0x06 => Self::Infiniband,
            0x07 => Self::IPMI,
            0x08 => Self::SERCOS,
            0x09 => Self::CANbus,
            0x80 => Self::Other,
            x => Self::Unknown(x),
        }
    }

    /// The bytes of the named subclasses, from the PCI class code table, and
    /// that `Unknown` never carries one of them: with `from_u8`'s contract
    /// they fix the variant that every byte decodes to.
    pub proof fn lemma_named_subclasses()
        ensures
            Self::Firewire.code() == 0x00,
            Self::ACCESS.code() == 0x01,
            Self::SSA.code() == 0x02,
            Self::USB.code() == 0x03,
            Self::FibreChannel.code() == 0x04,
            Self::SMBus.code() == 0x05,
            Self::Infiniband.code() == 0x06,
            Self::IPMI.code() == 0x07,
            Self::SERCOS.code() == 0x08,
            Self::CANbus.code() == 0x09,
            Self::Other.code() == 0x80,
            forall|x: u8| #[trigger] Self::Unknown(x).is_canonical() ==> x != 0x00 && x != 0x01 && x != 0x02 && x != 0x03 && x != 0x04 && x != 0x05 && x != 0x06 && x != 0x07 && x != 0x08 && x != 0x09 && x != 0x80,
    {
    }

    /// Two canonical values that stand for the same byte are the same value,
    /// so `from_u8(v.code()) == v` for every canonical `v`.
    pub proof fn lemma_code_determines_value(a: Self, b: Self)
        requires
            a.is_canonical(),
            b.is_canonical(),
            a.code() == b.code(),
        ensures
            a == b,
    {
    }
}

/// Subclasses of wireless controllers (class 0x0d).
#[derive(Debug, Clone, Copy, PartialEq, Eq, Structural)]
pub enum WirelessControllerSubclass {
    IRDA,
    ConsumerIR,
    RF,
    Bluetooth,
    Broadband,
    Ethernet,
    Other,
    Unknown(u8),
}

impl WirelessControllerSubclass {
    /// The subclass byte that this value stands for.
    pub open spec fn code(self) -> u8 {
        match self {
            Self::IRDA => 0x00,
            Self::ConsumerIR => 0x01,
            Self::RF => 0x10,
            Self::Bluetooth => 0x11,
            Self::Broadband => 0x12,
            Self::Ethernet => 0x20,
            Self::Other => 0x80,
            Self::Unknown(x) => x,
        }
    }

    /// `Unknown` carries only a byte that no other variant names.
    pub open spec fn is_canonical(self) -> bool {
        match self {
            Self::Unknown(x) => x != 0x00 && x != 0x01 && x != 0x10 && x != 0x11 && x != 0x12 && x != 0x20 && x != 0x80,
            _ => true,
        }
    }

    /// Decodes a subclass byte.
    pub fn from_u8(subclass: u8) -> (r: Self)
        ensures
            r.code() == subclass,
            r.is_canonical(),
    {
        match subclass {
            0x00 => Self::IRDA,
            0x01 => Self::ConsumerIR,
            0x10 => Self::RF,
            0x11 => Self::Bluetooth,
            0x12 => Self::Broadband,
            0x20 => Self::Ethernet,
            0x80 => Self::Other,
            x => Self::Unknown(x),
        }
    }

    /// The bytes of the named subclasses, from the PCI class code table, and
    /// that `Unknown` never carries one of them: with `from_u8`'s contract
    /// they fix the variant that every byte decodes to.
    pub proof fn lemma_named_subclasses()
        ensures
            Self::IRDA.code() == 0x00,
            Self::ConsumerIR.code() == 0x01,
            Self::RF.code() == 0x10,
            Self::Bluetooth.code() == 0x11,
            Self::Broadband.code() == 0x12,
            Self::Ethernet.code() == 0x20,
            Self::Other.code() == 0x80,
            forall|x: u8| #[trigger] Self::Unknown(x).is_canonical() ==> x != 0x00 && x != 0x01 && x != 0x10 && x != 0x11 && x != 0x12 && x != 0x20 && x != 0x80,
    {
    }

    /// Two canonical values that stand for the same byte are the same value,
    /// so `from_u8(v.code()) == v` for every canonical `v`.
    pub proof fn lemma_code_determines_value(a: Self, b: Self)
        requires
            a.is_canonical(),
            b.is_canonical(),
            a.code() == b.code(),
        ensures
            a == b,
    {
    }
}

/// Subclasses of intelligent controllers (class 0x0e).
#[derive(Debug, Clone, Copy, PartialEq, Eq, Structural)]
pub enum IntelligentControllerSubclass {
    I2O,
    Other,
    Unknown(u8),
}

impl IntelligentControllerSubclass {
    /// The subclass byte that this value stands for.
    pub open spec fn code(self) -> u8 {
        match self {
            Self::I2O => 0x00,
            Self::Other => 0x80,
            Self::Unknown(x) => x,
        }
    }

    /// `Unknown` carries only a byte that no other variant names.
    pub open spec fn is_canonical(self) -> bool {
        match self {
            Self::Unknown(x) => x != 0x00 && x != 0x80,
            _ => true,
        }
    }

    /// Decodes a subclass byte.
    pub fn from_u8(subclass: u8) -> (r: Self)
        ensures
            r.code() == subclass,
            r.is_canonical(),
    {
        match subclass {
            0x00 => Self::I2O,
            0x80 => Self::Other,
            x => Self::Unknown(x),
        }
    }

    /// The bytes of the named subclasses, from the PCI class code table, and
    /// that `Unknown` never carries one of them: with `from_u8`'s contract
    /// they fix the variant that every byte decodes to.
    pub proof fn lemma_named_subclasses()
        ensures
            Self::I2O.code() == 0x00,
            Self::Other.code() == 0x80,
            forall|x: u8| #[trigger] Self::Unknown(x).is_canonical() ==> x != 0x00 && x != 0x80,
    {
    }

    /// Two canonical values that stand for the same byte are the same value,
    /// so `from_u8(v.code()) == v` for every canonical `v`.
    pub proof fn lemma_code_determines_value(a: Self, b: Self)
        requires
            a.is_canonical(),
            b.is_canonical(),
            a.code() == b.code(),
        ensures
            a == b,
    {
    }
}

/// Subclasses of satellite communication controllers (class 0x0f).
#[derive(Debug, Clone, Copy, PartialEq, Eq, Structural)]
pub enum SatelliteCommunicationControllerSubclass {
    TV,
    Audio,
    Voice,
    Data,
    Other,
    Unknown(u8),
}

impl SatelliteCommunicationControllerSubclass {
    /// The subclass byte that this value stands for.
    pub open spec fn code(self) -> u8 {
        match self {
            Self::TV => 0x01,
            Self::Audio => 0x02,
            Self::Voice => 0x03,
            Self::Data => 0x04,
            Self::Other => 0x80,
            Self::Unknown(x) => x,
        }
    }

    /// `Unknown` carries only a byte that no other variant names.
    pub open spec fn is_canonical(self) -> bool {
        match self {
            Self::Unknown(x) => x != 0x01 && x != 0x02 && x != 0x03 && x != 0x04 && x != 0x80,
            _ => true,
        }
    }

    /// Decodes a subclass byte.
    pub fn from_u8(subclass: u8) -> (r: Self)
        ensures
            r.code() == subclass,
            r.is_canonical(),
    {
        match subclass {
            0x01 => Self::TV,
            0x02 => Self::Audio,
            0x03 => Self::Voice,
            0x04 => Self::Data,
            0x80 => Self::Other,
            x => Self::Unknown(x),
        }
    }

    /// The bytes of the named subclasses, from the PCI class code table, and
    /// that `Unknown` never carries one of them: with `from_u8`'s contract
    /// they fix the variant that every byte decodes to.
    pub proof fn lemma_named_subclasses()
        ensures
            Self::TV.code() == 0x01,
            Self::Audio.code() == 0x02,
            Self::Voice.code() == 0x03,
            Self::Data.code() == 0x04,
            Self::Other.code() == 0x80,
            forall|x: u8| #[trigger] Self::Unknown(x).is_canonical() ==> x != 0x01 && x != 0x02 && x != 0x03 && x != 0x04 && x != 0x80,
    {
    }

    /// Two canonical values that stand for the same byte are the same value,
    /// so `from_u8(v.code()) == v` for every canonical `v`.
    pub proof fn lemma_code_determines_value(a: Self, b: Self)
        requires
            a.is_canonical(),
            b.is_canonical(),
            a.code() == b.code(),
        ensures
            a == b,
    {
    }
}

/// Subclasses of encryption controllers (class 0x10).
#[derive(Debug, Clone, Copy, PartialEq, Eq, Structural)]
pub enum EncryptionControllerSubclass {
    Network,
    Entertainment,
    Other,
    Unknown(u8),
}

impl EncryptionControllerSubclass {
    /// The subclass byte that this value stands for.
    pub open spec fn code(self) -> u8 {
        match self {
            Self::Network => 0x00,
            Self::Entertainment => 0x10,
            Self::Other => 0x80,
            Self::Unknown(x) => x,
        }
    }

    /// `Unknown` carries only a byte that no other variant names.
    pub open spec fn is_canonical(self) -> bool {
        match self {
            Self::Unknown(x) => x != 0x00 && x != 0x10 && x != 0x80,
            _ => true,
        }
    }

    /// Decodes a subclass byte.
    pub fn from_u8(subclass: u8) -> (r: Self)
        ensures
            r.code() == subclass,
            r.is_canonical(),
    {
        match subclass {
            0x00 => Self::Network,
            0x10 => Self::Entertainment,
            0x80 => Self::Other,
            x => Self::Unknown(x),
        }
    }

    /// The bytes of the named subclasses, from the PCI class code table, and
    /// that `Unknown` never carries one of them: with `from_u8`'s contract
    /// they fix the variant that every byte decodes to.
    pub proof fn lemma_named_subclasses()
        ensures
            Self::Network.code() == 0x00,
            Self::Entertainment.code() == 0x10,
            Self::Other.code() == 0x80,
            forall|x: u8| #[trigger] Self::Unknown(x).is_canonical() ==> x != 0x00 && x != 0x10 && x != 0x80,
    {
    }

    /// Two canonical values that stand for the same byte are the same value,
    /// so `from_u8(v.code()) == v` for every canonical `v`.
    pub proof fn lemma_code_determines_value(a: Self, b: Self)
        requires
            a.is_canonical(),
            b.is_canonical(),
            a.code() == b.code(),
        ensures
            a == b,
    {
    }
}

/// Subclasses of signal processing controllers (class 0x11).
#[derive(Debug, Clone, Copy, PartialEq, Eq, Structural)]
pub enum SignalProcessingControllerSubclass {
    DPIO,
    PerformanceCounter,
    CommunicationSynchronizer,
    SignalProcessingManagement,
    Other,
    Unknown(u8),
}

impl SignalProcessingControllerSubclass {
    /// The subclass byte that this value stands for.
    pub open spec fn code(self) -> u8 {
        match self {
            Self::DPIO => 0x00,
            Self::PerformanceCounter => 0x01,
            Self::CommunicationSynchronizer => 0x10,
            Self::SignalProcessingManagement => 0x20,
            Self::Other => 0x80,
            Self::Unknown(x) => x,
        }
    }

    /// `Unknown` carries only a byte that no other variant names.
    pub open spec fn is_canonical(self) -> bool {
        match self {
            Self::Unknown(x) => x != 0x00 && x != 0x01 && x != 0x10 && x != 0x20 && x != 0x80,
            _ => true,
        }
    }

    /// Decodes a subclass byte.
    pub fn from_u8(subclass: u8) -> (r: Self)
        ensures
            r.code() == subclass,
            r.is_canonical(),
    {
        match subclass {
            0x00 => Self::DPIO,
            0x01 => Self::PerformanceCounter,
            0x10 => Self::CommunicationSynchronizer,
            0x20 => Self::SignalProcessingManagement,
            0x80 => Self::Other,
            x => Self::Unknown(x),
        }
    }

    /// The bytes of the named subclasses, from the PCI class code table, and
    /// that `Unknown` never carries one of them: with `from_u8`'s contract
    /// they fix the variant that every byte decodes to.
    pub proof fn lemma_named_subclasses()
        ensures
            Self::DPIO.code() == 0x00,
            Self::PerformanceCounter.code() == 0x01,
            Self::CommunicationSynchronizer.code() == 0x10,
            Self::SignalProcessingManagement.code() == 0x20,
            Self::Other.code() == 0x80,
            forall|x: u8| #[trigger] Self::Unknown(x).is_canonical() ==> x != 0x00 && x != 0x01 && x != 0x10 && x != 0x20 && x != 0x80,
    {
    }

    /// Two canonical values that stand for the same byte are the same value,
    /// so `from_u8(v.code()) == v` for every canonical `v`.
    pub proof fn lemma_code_determines_value(a: Self, b: Self)
        requires
            a.is_canonical(),
            b.is_canonical(),
            a.code() == b.code(),
        ensures
            a == b,
    {
    }
}
/// The class of a PCI function, with its subclass where the class defines them.
#[derive(Debug, Clone, Copy, PartialEq, Eq, Structural)]
pub enum ClassCode {
    Unclassified(UnclassifiedSubclass),
    MassStorageController(MassStorageControllerSubclass),
    NetworkController(NetworkControllerSubclass),
    DisplayController(DisplayControllerSubclass),
    MultimediaController(MultimediaControllerSubclass),
    MemoryController(MemoryControllerSubclass),
    BridgeDevice(BridgeDeviceSubclass),
    SimpleCommunicationController(SimpleCommunicationControllerSubclass),
    BaseSystemPeripheral(BaseSystemPeripheralSubclass),
    InputDeviceController(InputDeviceControllerSubclass),
    DockingStation(DockingStationSubclass),
    Processor(ProcessorSubclass),
    SerialBusController(SerialBusControllerSubclass),
    WirelessController(WirelessControllerSubclass),
    IntelligentController(IntelligentControllerSubclass),
    SatelliteCommunicationController(SatelliteCommunicationControllerSubclass),
    EncryptionController(EncryptionControllerSubclass),
    SignalProcessingController(SignalProcessingControllerSubclass),
    ProcessingAccelerator,
    NonEssentialInstrumentation,
    Reserved,
    Unknown(u8),
}

impl ClassCode {
    /// The class byte that this value stands for.
    pub open spec fn class_code(self) -> u8 {
        match self {
            Self::Unclassified(_) => 0x00,
            Self::MassStorageController(_) => 0x01,
            Self::NetworkController(_) => 0x02,
            Self::DisplayController(_) => 0x03,
            Self::MultimediaController(_) => 0x04,
            Self::MemoryController(_) => 0x05,
            Self::BridgeDevice(_) => 0x06,
            Self::SimpleCommunicationController(_) => 0x07,
            Self::BaseSystemPeripheral(_) => 0x08,
            Self::InputDeviceController(_) => 0x09,
            Self::DockingStation(_) => 0x0a,
            Self::Processor(_) => 0x0b,
            Self::SerialBusController(_) => 0x0c,
            Self::WirelessController(_) => 0x0d,
            Self::IntelligentController(_) => 0x0e,
            Self::SatelliteCommunicationController(_) => 0x0f,
            Self::EncryptionController(_) => 0x10,
            Self::SignalProcessingController(_) => 0x11,
            Self::ProcessingAccelerator => 0x12,
            Self::NonEssentialInstrumentation => 0x13,
            Self::Reserved => 0x14,
            Self::Unknown(x) => x,
        }
    }

    /// The subclass byte carried by this value, for the classes that define subclasses.
    pub open spec fn subclass_code(self) -> Option<u8> {
        match self {
            Self::Unclassified(s) => Some(s.code()),
            Self::MassStorageController(s) => Some(s.code()),
            Self::NetworkController(s) => Some(s.code()),
            Self::DisplayController(s) => Some(s.code()),
            Self::MultimediaController(s) => Some(s.code()),
            Self::MemoryController(s) => Some(s.code()),
            Self::BridgeDevice(s) => Some(s.code()),
            Self::SimpleCommunicationController(s) => Some(s.code()),
            Self::BaseSystemPeripheral(s) => Some(s.code()),
            Self::InputDeviceController(s) => Some(s.code()),
            Self::DockingStation(s) => Some(s.code()),
            Self::Processor(s) => Some(s.code()),
            Self::SerialBusController(s) => Some(s.code()),
            Self::WirelessController(s) => Some(s.code()),
            Self::IntelligentController(s) => Some(s.code()),
            Self::SatelliteCommunicationController(s) => Some(s.code()),
            Self::EncryptionController(s) => Some(s.code()),
            Self::SignalProcessingController(s) => Some(s.code()),
            _ => None,
        }
    }

    /// `Unknown` carries only a class byte without a name, and every subclass is canonical.
    pub open spec fn is_canonical(self) -> bool {
        match self {
            Self::Unclassified(s) => s.is_canonical(),
            Self::MassStorageController(s) => s.is_canonical(),
            Self::NetworkController(s) => s.is_canonical(),
            Self::DisplayController(s) => s.is_canonical(),
            Self::MultimediaController(s) => s.is_canonical(),
            Self::MemoryController(s) => s.is_canonical(),
            Self::BridgeDevice(s) => s.is_canonical(),
            Self::SimpleCommunicationController(s) => s.is_canonical(),
            Self::BaseSystemPeripheral(s) => s.is_canonical(),
            Self::InputDeviceController(s) => s.is_canonical(),
            Self::DockingStation(s) => s.is_canonical(),
            Self::Processor(s) => s.is_canonical(),
            Self::SerialBusController(s) => s.is_canonical(),
            Self::WirelessController(s) => s.is_canonical(),
            Self::IntelligentController(s) => s.is_canonical(),
            Self::SatelliteCommunicationController(s) => s.is_canonical(),
            Self::EncryptionController(s) => s.is_canonical(),
            Self::SignalProcessingController(s) => s.is_canonical(),
            Self::Unknown(x) => x > 0x14,
            _ => true,
        }
    }

    /// Decodes a class byte and, for the classes that define subclasses, a subclass byte.
    pub fn from_u8(class: u8, subclass: u8) -> (r: Self)
        ensures
            r.class_code() == class,
            r.is_canonical(),
            class <= 0x11 ==> r.subclass_code() == Some(subclass),
            class > 0x11 ==> r.subclass_code() is None,
    {
        match class {
            0x00 => Self::Unclassified(UnclassifiedSubclass::from_u8(subclass)),
            0x01 => Self::MassStorageController(MassStorageControllerSubclass::from_u8(subclass)),
            0x02 => Self::NetworkController(NetworkControllerSubclass::from_u8(subclass)),
            0x03 => Self::DisplayController(DisplayControllerSubclass::from_u8(subclass)),
            0x04 => Self::MultimediaController(MultimediaControllerSubclass::from_u8(subclass)),
            0x05 => Self::MemoryController(MemoryControllerSubclass::from_u8(subclass)),
            0x06 => Self::BridgeDevice(BridgeDeviceSubclass::from_u8(subclass)),
            0x07 => Self::SimpleCommunicationController(SimpleCommunicationControllerSubclass::from_u8(subclass)),
            0x08 => Self::BaseSystemPeripheral(BaseSystemPeripheralSubclass::from_u8(subclass)),
            0x09 => Self::InputDeviceController(InputDeviceControllerSubclass::from_u8(subclass)),
            0x0a => Self::DockingStation(DockingStationSubclass::from_u8(subclass)),
            0x0b => Self::Processor(ProcessorSubclass::from_u8(subclass)),
            0x0c => Self::SerialBusController(SerialBusControllerSubclass::from_u8(subclass)),
            0x0d => Self::WirelessController(WirelessControllerSubclass::from_u8(subclass)),
            0x0e => Self::IntelligentController(IntelligentControllerSubclass::from_u8(subclass)),
            0x0f => Self::SatelliteCommunicationController(SatelliteCommunicationControllerSubclass::from_u8(subclass)),
            0x10 => Self::EncryptionController(EncryptionControllerSubclass::from_u8(subclass)),
            0x11 => Self::SignalProcessingController(SignalProcessingControllerSubclass::from_u8(subclass)),
            0x12 => Self::ProcessingAccelerator,
            0x13 => Self::NonEssentialInstrumentation,
            0x14 => Self::Reserved,
            x => Self::Unknown(x),
        }
    }

    /// The bytes of the named classes, from the PCI class code table, and
    /// that `Unknown` never carries one of them: with `from_u8`'s contract
    /// they fix the class that every byte decodes to.
    pub proof fn lemma_named_classes()
        ensures
            forall|s: UnclassifiedSubclass| #[trigger] Self::Unclassified(s).class_code() == 0x00,
            forall|s: MassStorageControllerSubclass| #[trigger] Self::MassStorageController(s).class_code() == 0x01,
            forall|s: NetworkControllerSubclass| #[trigger] Self::NetworkController(s).class_code() == 0x02,
            forall|s: DisplayControllerSubclass| #[trigger] Self::DisplayController(s).class_code() == 0x03,
            forall|s: MultimediaControllerSubclass| #[trigger] Self::MultimediaController(s).class_code() == 0x04,
            forall|s: MemoryControllerSubclass| #[trigger] Self::MemoryController(s).class_code() == 0x05,
            forall|s: BridgeDeviceSubclass| #[trigger] Self::BridgeDevice(s).class_code() == 0x06,
            forall|s: SimpleCommunicationControllerSubclass| #[trigger] Self::SimpleCommunicationController(s).class_code() == 0x07,
            forall|s: BaseSystemPeripheralSubclass| #[trigger] Self::BaseSystemPeripheral(s).class_code() == 0x08,
            forall|s: InputDeviceControllerSubclass| #[trigger] Self::InputDeviceController(s).class_code() == 0x09,
            forall|s: DockingStationSubclass| #[trigger] Self::DockingStation(s).class_code() == 0x0a,
            forall|s: ProcessorSubclass| #[trigger] Self::Processor(s).class_code() == 0x0b,
            forall|s: SerialBusControllerSubclass| #[trigger] Self::SerialBusController(s).class_code() == 0x0c,
            forall|s: WirelessControllerSubclass| #[trigger] Self::WirelessController(s).class_code() == 0x0d,
            forall|s: IntelligentControllerSubclass| #[trigger] Self::IntelligentController(s).class_code() == 0x0e,
            forall|s: SatelliteCommunicationControllerSubclass| #[trigger] Self::SatelliteCommunicationController(s).class_code() == 0x0f,
            forall|s: EncryptionControllerSubclass| #[trigger] Self::EncryptionController(s).class_code() == 0x10,
            forall|s: SignalProcessingControllerSubclass| #[trigger] Self::SignalProcessingController(s).class_code() == 0x11,
            Self::ProcessingAccelerator.class_code() == 0x12,
            Self::NonEssentialInstrumentation.class_code() == 0x13,
            Self::Reserved.class_code() == 0x14,
            forall|x: u8| #[trigger] Self::Unknown(x).is_canonical() ==> x != 0x00 && x != 0x01 && x != 0x02 && x != 0x03 && x != 0x04 && x != 0x05 && x != 0x06 && x != 0x07 && x != 0x08 && x != 0x09 && x != 0x0a && x != 0x0b && x != 0x0c && x != 0x0d && x != 0x0e && x != 0x0f && x != 0x10 && x != 0x11 && x != 0x12 && x != 0x13 && x != 0x14,
    {
    }

    /// Two canonical class codes that stand for the same class and subclass bytes
    /// are the same value: decoding is a bijection onto the canonical values.
    pub proof fn lemma_codes_determine_value(a: Self, b: Self)
        requires
            a.is_canonical(),
            b.is_canonical(),
            a.class_code() == b.class_code(),
            a.subclass_code() == b.subclass_code(),
        ensures
            a == b,
    {
        match a {
            Self::Unclassified(s) => {
                if let Self::Unclassified(u) = b {
                    UnclassifiedSubclass::lemma_code_determines_value(s, u);
                }
            },
            Self::MassStorageController(s) => {
                if let Self::MassStorageController(u) = b {
                    MassStorageControllerSubclass::lemma_code_determines_value(s, u);
                }
            },
            Self::NetworkController(s) => {
                if let Self::NetworkController(u) = b {
                    NetworkControllerSubclass::lemma_code_determines_value(s, u);
                }
            },
            Self::DisplayController(s) => {
                if let Self::DisplayController(u) = b {
                    DisplayControllerSubclass::lemma_code_determines_value(s, u);
                }
            },
            Self::MultimediaController(s) => {
                if let Self::MultimediaController(u) = b {
                    MultimediaControllerSubclass::lemma_code_determines_value(s, u);
                }
            },
            Self::MemoryController(s) => {
                if let Self::MemoryController(u) = b {
                    MemoryControllerSubclass::lemma_code_determines_value(s, u);
                }
            },
            Self::BridgeDevice(s) => {
                if let Self::BridgeDevice(u) = b {
                    BridgeDeviceSubclass::lemma_code_determines_value(s, u);
                }
            },
            Self::SimpleCommunicationController(s) => {
                if let Self::SimpleCommunicationController(u) = b {
                    SimpleCommunicationControllerSubclass::lemma_code_determines_value(s, u);
                }
            },
            Self::BaseSystemPeripheral(s) => {
                if let Self::BaseSystemPeripheral(u) = b {
                    BaseSystemPeripheralSubclass::lemma_code_determines_value(s, u);
                }
            },
            Self::InputDeviceController(s) => {
                if let Self::InputDeviceController(u) = b {
                    InputDeviceControllerSubclass::lemma_code_determines_value(s, u);
                }
            },
            Self::DockingStation(s) => {
                if let Self::DockingStation(u) = b {
                    DockingStationSubclass::lemma_code_determines_value(s, u);
                }
            },
            Self::Processor(s) => {
                if let Self::Processor(u) = b {
                    ProcessorSubclass::lemma_code_determines_value(s, u);
                }
            },
            Self::SerialBusController(s) => {
                if let Self::SerialBusController(u) = b {
                    SerialBusControllerSubclass::lemma_code_determines_value(s, u);
                }
            },
            Self::WirelessController(s) => {
                if let Self::WirelessController(u) = b {
                    WirelessControllerSubclass::lemma_code_determines_value(s, u);
                }
            },
            Self::IntelligentController(s) => {
                if let Self::IntelligentController(u) = b {
                    IntelligentControllerSubclass::lemma_code_determines_value(s, u);
                }
            },
            Self::SatelliteCommunicationController(s) => {
                if let Self::SatelliteCommunicationController(u) = b {
                    SatelliteCommunicationControllerSubclass::lemma_code_determines_value(s, u);
                }
            },
            Self::EncryptionController(s) => {
                if let Self::EncryptionController(u) = b {
                    EncryptionControllerSubclass::lemma_code_determines_value(s, u);
                }
            },
            Self::SignalProcessingController(s) => {
                if let Self::SignalProcessingController(u) = b {
                    SignalProcessingControllerSubclass::lemma_code_determines_value(s, u);
                }
            },
            _ => {},
        }
    }
}


} // verus!
