//! A toy MMU: 6-bit virtual addresses, eight page-table entries.
//!
//! A virtual address is split into a 3-bit virtual page number (the high bits)
//! and a 3-bit offset (the low bits). Each page-table entry holds the physical
//! frame number in its high bits and three flags in its low bits:
//! present (bit 0), writable (bit 1) and user-accessible (bit 2).
use vstd::prelude::*;

verus! {

/// Why a translation was refused.
#[derive(Debug, PartialEq, Eq, Structural)]
pub enum MemoryError {
    /// The entry's present flag is clear.
    PageNotPresent,
    /// A write to a page whose writable flag is clear.
    WriteProtected,
    /// A user-mode access to a page whose user flag is clear.
    PrivilegeViolation,
    /// The virtual address does not fit in 6 bits (it is above 63).
    InvalidAddress,
}

/// The privilege level the CPU currently runs at.
#[derive(Debug, Clone, Copy, PartialEq, Eq, Structural)]
pub enum PrivilegeLevel {
    /// Kernel mode.
    Ring0,
    /// User mode.
    Ring3,
}

/// Number of bytes in a page.
pub const PAGE_SIZE: u8 = 8;
/// Largest valid virtual address.
pub const MAX_VA: u8 = 63;

/// The present flag of an entry.
pub open spec fn is_present(pte: u8) -> bool {
    pte % 2 == 1
}

/// The writable flag of an entry.
pub open spec fn is_writable(pte: u8) -> bool {
    (pte / 2) % 2 == 1
}

/// The user-accessible flag of an entry.
pub open spec fn is_user(pte: u8) -> bool {
    (pte / 4) % 2 == 1
}

/// The result of translating `va` through `table` at privilege `privilege`:
/// the checks come in the order address, presence, write permission, privilege,
/// and a granted access lands on the entry's frame at the address's offset.
pub open spec fn translation(
    table: Seq<u8>,
    privilege: PrivilegeLevel,
    va: u8,
    is_write: bool,
) -> Result<u8, MemoryError> {
    if va > MAX_VA {
        Err(MemoryError::InvalidAddress)
    } else {
        let pte = table[(va / PAGE_SIZE) as int];
        if !is_present(pte) {
            Err(MemoryError::PageNotPresent)
        } else if is_write && !is_writable(pte) {
            Err(MemoryError::WriteProtected)
        } else if privilege == PrivilegeLevel::Ring3 && !is_user(pte) {
            Err(MemoryError::PrivilegeViolation)
        } else {
            Ok(((pte / PAGE_SIZE) * PAGE_SIZE + va % PAGE_SIZE) as u8)
        }
    }
}


/// A granted access keeps the address's offset within the page and lands on
/// the frame named by the entry of the address's page.
pub proof fn lemma_granted_access_keeps_offset(
    table: Seq<u8>,
    privilege: PrivilegeLevel,
    va: u8,
    is_write: bool,
)
    requires
        table.len() == 8,
        translation(table, privilege, va, is_write) is Ok,
    ensures
        ({
            let pa = translation(table, privilege, va, is_write)->Ok_0;
            &&& pa % PAGE_SIZE == va % PAGE_SIZE
            &&& pa / PAGE_SIZE == table[(va / PAGE_SIZE) as int] / PAGE_SIZE
        }),
{
}

/// An address is refused as invalid exactly when it does not fit in 6 bits,
/// whatever the table, privilege and access kind.
pub proof fn lemma_invalid_address_exactly_above_max(
    table: Seq<u8>,
    privilege: PrivilegeLevel,
    va: u8,
    is_write: bool,
)
    requires
        table.len() == 8,
    ensures
        (translation(table, privilege, va, is_write) == Err::<u8, MemoryError>(
            MemoryError::InvalidAddress,
        )) <==> va > 63,
{
}

/// The kernel is never refused for lack of privilege.
pub proof fn lemma_kernel_never_privilege_violation(table: Seq<u8>, va: u8, is_write: bool)
    requires
        table.len() == 8,
    ensures
        translation(table, PrivilegeLevel::Ring0, va, is_write) != Err::<u8, MemoryError>(
            MemoryError::PrivilegeViolation,
        ),
{
}

/// A read is never refused as write-protected.
pub proof fn lemma_read_never_write_protected(table: Seq<u8>, privilege: PrivilegeLevel, va: u8)
    requires
        table.len() == 8,
    ensures
        translation(table, privilege, va, false) != Err::<u8, MemoryError>(
            MemoryError::WriteProtected,
        ),
{
}

/// Whatever may be written may be read, at the same physical address.
pub proof fn lemma_write_grant_implies_read_grant(
    table: Seq<u8>,
    privilege: PrivilegeLevel,
    va: u8,
)
    requires
        table.len() == 8,
        translation(table, privilege, va, true) is Ok,
    ensures
        translation(table, privilege, va, false) == translation(table, privilege, va, true),
{
}

/// Whatever user mode may access, kernel mode may access too, at the same
/// physical address; kernel and user mode differ only on user-flag refusals.
pub proof fn lemma_user_grant_implies_kernel_grant(table: Seq<u8>, va: u8, is_write: bool)
    requires
        table.len() == 8,
    ensures
        translation(table, PrivilegeLevel::Ring3, va, is_write) is Ok ==> translation(
            table,
            PrivilegeLevel::Ring0,
            va,
            is_write,
        ) == translation(table, PrivilegeLevel::Ring3, va, is_write),
        translation(table, PrivilegeLevel::Ring3, va, is_write) != translation(
            table,
            PrivilegeLevel::Ring0,
            va,
            is_write,
        ) ==> translation(table, PrivilegeLevel::Ring3, va, is_write) == Err::<u8, MemoryError>(
            MemoryError::PrivilegeViolation,
        ),
{
}

/// Addresses of one virtual page land on one frame, each at its own offset:
/// two granted addresses of a page lie as far apart physically as virtually.
pub proof fn lemma_same_page_same_frame(
    table: Seq<u8>,
    privilege: PrivilegeLevel,
    va1: u8,
    va2: u8,
    is_write: bool,
)
    requires
        table.len() == 8,
        va1 <= MAX_VA,
        va2 <= MAX_VA,
        va1 / PAGE_SIZE == va2 / PAGE_SIZE,
        translation(table, privilege, va1, is_write) is Ok,
    ensures
        translation(table, privilege, va2, is_write) is Ok,
        translation(table, privilege, va2, is_write)->Ok_0 - translation(
            table,
            privilege,
            va1,
            is_write,
        )->Ok_0 == va2 - va1,
{
}

/// An address whose page entry has its present flag (bit 0) clear is refused
/// as not present, whatever the access and privilege; so a granted access
/// always went through a present entry.
pub proof fn lemma_absent_page_refused(
    table: Seq<u8>,
    privilege: PrivilegeLevel,
    va: u8,
    is_write: bool,
)
    requires
        table.len() == 8,
    ensures
        va <= 63 && table[(va / 8) as int] & 1 == 0 ==> translation(table, privilege, va, is_write)
            == Err::<u8, MemoryError>(MemoryError::PageNotPresent),
        translation(table, privilege, va, is_write) is Ok ==> table[(va / 8) as int] & 1 == 1,
{
    let pte = table[(va / 8) as int];
    assert((pte & 1 == 0) == (pte % 2 == 0) && (pte & 1 == 1) == (pte % 2 == 1)) by (bit_vector);
}

/// A granted access went through an entry that allows it: present (bit 0), writable
/// (bit 1) for a write, and user-accessible (bit 2) in user mode; and the
/// physical address is the entry's frame (its top five bits) followed by the
/// virtual address's offset (its low three bits).
pub proof fn lemma_granted_access_is_permitted(
    table: Seq<u8>,
    privilege: PrivilegeLevel,
    va: u8,
    is_write: bool,
)
    requires
        table.len() == 8,
        translation(table, privilege, va, is_write) is Ok,
    ensures
        va <= 63,
        table[(va / 8) as int] & 1 == 1,
        is_write ==> table[(va / 8) as int] & 2 == 2,
        privilege == PrivilegeLevel::Ring3 ==> table[(va / 8) as int] & 4 == 4,
        translation(table, privilege, va, is_write)->Ok_0 == (table[(va / 8) as int] & 0xf8) | (va
            & 7),
{
    let pte = table[(va / 8) as int];
    let pa = translation(table, privilege, va, is_write)->Ok_0;
    assert((pte & 1 == 1) == (pte % 2 == 1) && (pte & 2 == 2) == ((pte / 2) % 2 == 1) && (pte & 4
        == 4) == ((pte / 4) % 2 == 1)) by (bit_vector);
    assert(pa == (pte / 8) * 8 + va % 8);
    assert(va <= 63 ==> (pte / 8) * 8 + va % 8 == (pte & 0xf8) | (va & 7)) by (bit_vector);
}

/// An address of at most 6 bits whose entry is present, writable if the access
/// is a write, and user-accessible if the access is made in user mode, is
/// granted.
pub proof fn lemma_permitted_access_granted(
    table: Seq<u8>,
    privilege: PrivilegeLevel,
    va: u8,
    is_write: bool,
)
    requires
        table.len() == 8,
        va <= 63,
        table[(va / 8) as int] & 1 == 1,
        is_write ==> table[(va / 8) as int] & 2 == 2,
        privilege == PrivilegeLevel::Ring3 ==> table[(va / 8) as int] & 4 == 4,
    ensures
        translation(table, privilege, va, is_write) is Ok,
{
    let pte = table[(va / 8) as int];
    assert((pte & 1 == 1) == (pte % 2 == 1) && (pte & 2 == 2) == ((pte / 2) % 2 == 1) && (pte & 4
        == 4) == ((pte / 4) % 2 == 1)) by (bit_vector);
}

/// A present page refuses a write when its writable flag (bit 1) is clear, and
/// otherwise refuses a user-mode access when its user flag (bit 2) is clear.
pub proof fn lemma_protection_refusals(
    table: Seq<u8>,
    privilege: PrivilegeLevel,
    va: u8,
    is_write: bool,
)
    requires
        table.len() == 8,
        va <= 63,
        table[(va / 8) as int] & 1 == 1,
    ensures
        is_write && table[(va / 8) as int] & 2 == 0 ==> translation(table, privilege, va, is_write)
            == Err::<u8, MemoryError>(MemoryError::WriteProtected),
        (!is_write || table[(va / 8) as int] & 2 == 2) && privilege == PrivilegeLevel::Ring3
            && table[(va / 8) as int] & 4 == 0 ==> translation(table, privilege, va, is_write)
            == Err::<u8, MemoryError>(MemoryError::PrivilegeViolation),
{
    let pte = table[(va / 8) as int];
    assert((pte & 1 == 1) == (pte % 2 == 1) && (pte & 2 == 0) == ((pte / 2) % 2 == 0) && (pte & 2
        == 2) == ((pte / 2) % 2 == 1) && (pte & 4 == 0) == ((pte / 4) % 2 == 0)) by (bit_vector);
}

/// A page table of eight entries together with the current privilege level.
pub struct ToyMMU {
    page_table: [u8; 8],
    current_privilege: PrivilegeLevel,
}

impl ToyMMU {
    /// The page-table entries.
    pub closed spec fn table(&self) -> Seq<u8> {
        self.page_table@
    }

    /// The privilege level accesses are made at.
    pub closed spec fn privilege(&self) -> PrivilegeLevel {
        self.current_privilege
    }

    /// What `translate(va, is_write)` gives on this MMU.
    pub open spec fn translation(&self, va: u8, is_write: bool) -> Result<u8, MemoryError> {
        translation(self.table(), self.privilege(), va, is_write)
    }

    /// There are always eight entries.
    pub proof fn lemma_table_len(&self)
        ensures
            self.table().len() == 8,
    {
    }

    /// Builds an MMU over `page_table` running at `privilege`.
    pub fn new(page_table: [u8; 8], privilege: PrivilegeLevel) -> (mmu: Self)
        ensures
            mmu.table() == page_table@,
            mmu.privilege() == privilege,
    {
        Self { page_table, current_privilege: privilege }
    }

    /// Translates the virtual address `virtual_addr` to a physical address,
    /// for a write when `is_write` holds and for a read otherwise.
    pub fn translate(&self, virtual_addr: u8, is_write: bool) -> (res: Result<u8, MemoryError>)
        ensures
            res == self.translation(virtual_addr, is_write),
    {
        let offset_mask: u8 = PAGE_SIZE - 1;
        let present: u8 = 0b001;
        let writable: u8 = 0b010;
        let user: u8 = 0b100;

        if virtual_addr > MAX_VA {
            return Err(MemoryError::InvalidAddress);
        }
        let virtual_page_number = virtual_addr >> 3;
        let offset = virtual_addr & offset_mask;
        assert(virtual_page_number == virtual_addr / 8 && offset == virtual_addr % 8)
            by (bit_vector)
            requires
                virtual_page_number == virtual_addr >> 3,
                offset == virtual_addr & 7,
        ;
        let entry = self.page_table[virtual_page_number as usize];
        assert((entry & 1 == 0) == (entry % 2 == 0)
            && (entry & 2 == 0) == ((entry / 2) % 2 == 0)
            && (entry & 4 == 0) == ((entry / 4) % 2 == 0)) by (bit_vector);

        if entry & present == 0 {
            return Err(MemoryError::PageNotPresent);
        }
        if is_write && entry & writable == 0 {
            return Err(MemoryError::WriteProtected);
        }
        let in_user_mode = match self.current_privilege {
            PrivilegeLevel::Ring0 => false,
            PrivilegeLevel::Ring3 => true,
        };
        if in_user_mode && entry & user == 0 {
            return Err(MemoryError::PrivilegeViolation);
        }
        let physical_frame_number = entry >> 3;
        let pa = (physical_frame_number << 3) | offset;
        assert(pa == (entry / 8) * 8 + offset) by (bit_vector)
            requires
                physical_frame_number == entry >> 3,
                pa == (physical_frame_number << 3) | offset,
                offset < 8,
        ;
        Ok(pa)
    }
}

} // verus!
