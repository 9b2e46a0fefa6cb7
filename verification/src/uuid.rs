//! Attribute type identifiers.
//!
//! Bluetooth names attribute types by UUID. Common types have a 16-bit
//! alias; the alias stands for the 128-bit UUID obtained by placing it in
//! the Bluetooth Base UUID `00000000-0000-1000-8000-00805F9B34FB`.

use vstd::prelude::*;

verus! {

/// 16-bit alias of the Primary Service declaration type.
pub const PRIMARY_SERVICE_UUID16: u16 = 0x2800;

/// 16-bit alias of the Characteristic declaration type.
pub const CHARACTERISTIC_UUID16: u16 = 0x2803;

/// Type of an attribute: a 16-bit alias, or a full 128-bit UUID as its
/// sixteen bytes in the order in which a UUID is written.
#[derive(Clone, Copy, Debug)]
pub enum AttUuid {
    Uuid16(u16),
    Uuid128([u8; 16]),
}

/// The sixteen bytes of the UUID that the alias `alias` stands for: the
/// Bluetooth Base UUID with the alias, high byte first, in its third and
/// fourth byte.
pub open spec fn full_uuid(alias: u16) -> Seq<u8> {
    seq![
        0x00u8, 0x00u8, (alias / 256) as u8, (alias % 256) as u8,
        0x00u8, 0x00u8, 0x10u8, 0x00u8,
        0x80u8, 0x00u8, 0x00u8, 0x80u8,
        0x5Fu8, 0x9Bu8, 0x34u8, 0xFBu8,
    ]
}

impl AttUuid {
    /// Whether this identifier names the same UUID as the 16-bit alias `alias`.
    pub open spec fn denotes(self, alias: u16) -> bool {
        match self {
            AttUuid::Uuid16(a) => a == alias,
            AttUuid::Uuid128(bytes) => bytes@ == full_uuid(alias),
        }
    }

    /// Whether the identifier is the Primary Service declaration type.
    pub open spec fn is_primary_service(self) -> bool {
        self.denotes(PRIMARY_SERVICE_UUID16)
    }

    /// Whether the identifier is the Characteristic declaration type.
    pub open spec fn is_characteristic(self) -> bool {
        self.denotes(CHARACTERISTIC_UUID16)
    }

    /// Whether the identifier is one of the two types that start a group.
    pub open spec fn is_grouping(self) -> bool {
        self.is_primary_service() || self.is_characteristic()
    }

    /// How far a group of this type reaches: 2 for a primary service, 1 for a
    /// characteristic declaration, which a service holds, and 0 for a type
    /// that starts no group.
    pub open spec fn group_rank(self) -> nat {
        if self.is_primary_service() {
            2
        } else if self.is_characteristic() {
            1
        } else {
            0
        }
    }
}

/// Calls rubble's `==` between `rubble::att::AttUuid` and `rubble::uuid::Uuid16`.
///
/// Believed of rubble: a 16-bit identifier equals an alias when the two
/// numbers are equal; a 128-bit identifier equals an alias when its bytes are
/// those of the Bluetooth Base UUID with the alias, high byte first, in its
/// third and fourth byte.
#[verifier::external_body]
pub(crate) fn uuid_equals_alias(uuid: AttUuid, alias: u16) -> (r: bool)
    ensures
        r == uuid.denotes(alias),
{
    let outside = match uuid {
        AttUuid::Uuid16(v) => rubble::att::AttUuid::Uuid16(rubble::uuid::Uuid16(v)),
        AttUuid::Uuid128(b) => rubble::att::AttUuid::Uuid128(rubble::uuid::Uuid128::from_bytes(b)),
    };
    outside == rubble::uuid::Uuid16(alias)
}

} // verus!
