use sysprog::mmu::{MemoryError, PrivilegeLevel, ToyMMU};

// Entry 0: frame 2, U=1 W=1 P=1 (23); entry 1: frame 5, U=0 W=1 P=1 (43);
// entry 2: frame 1, U=1 W=0 P=1 (13); entry 3: not present (0).
fn setup_test_table() -> [u8; 8] {
    [23, 43, 13, 0, 0, 0, 0, 0]
}

#[test]
fn test_successful_translation() {
    let mmu = ToyMMU::new(setup_test_table(), PrivilegeLevel::Ring3);
    assert_eq!(mmu.translate(3, false), Ok(19));
}

#[test]
fn test_invalid_address() {
    let mmu = ToyMMU::new(setup_test_table(), PrivilegeLevel::Ring3);
    assert_eq!(mmu.translate(64, false), Err(MemoryError::InvalidAddress));
    assert_eq!(mmu.translate(100, false), Err(MemoryError::InvalidAddress));
}

#[test]
fn test_page_not_present() {
    let mmu = ToyMMU::new(setup_test_table(), PrivilegeLevel::Ring3);
    assert_eq!(mmu.translate(24, false), Err(MemoryError::PageNotPresent));
}

#[test]
fn test_write_protection() {
    let mmu = ToyMMU::new(setup_test_table(), PrivilegeLevel::Ring3);
    assert!(mmu.translate(16, false).is_ok());
    assert_eq!(mmu.translate(16, true), Err(MemoryError::WriteProtected));
}

#[test]
fn test_privilege_violation_in_ring3() {
    let mmu = ToyMMU::new(setup_test_table(), PrivilegeLevel::Ring3);
    assert_eq!(
        mmu.translate(8, false),
        Err(MemoryError::PrivilegeViolation)
    );
}

#[test]
fn test_kernel_can_access_everything() {
    let mmu = ToyMMU::new(setup_test_table(), PrivilegeLevel::Ring0);
    assert_eq!(mmu.translate(11, false), Ok(43));
}

#[test]
fn mmu_offset_is_kept_and_frame_is_taken_from_entry() {
    let mmu = ToyMMU::new(setup_test_table(), PrivilegeLevel::Ring0);
    for va in 0u8..8 {
        assert_eq!(mmu.translate(va, true), Ok(16 + va));
        assert_eq!(mmu.translate(8 + va, true), Ok(40 + va));
    }
    // Page 2 is read-only for everyone, kernel included.
    assert_eq!(mmu.translate(21, false), Ok(13));
    assert_eq!(mmu.translate(21, true), Err(MemoryError::WriteProtected));
}

#[test]
fn mmu_edge_addresses() {
    let table = [0b1111_1111, 0, 0, 0, 0, 0, 0, 0b0000_0111];
    let mmu = ToyMMU::new(table, PrivilegeLevel::Ring3);
    assert_eq!(mmu.translate(0, true), Ok(0b1111_1000));
    assert_eq!(mmu.translate(7, true), Ok(255));
    assert_eq!(mmu.translate(63, true), Ok(7));
    assert_eq!(mmu.translate(56, false), Ok(0));
    assert_eq!(mmu.translate(64, false), Err(MemoryError::InvalidAddress));
    assert_eq!(mmu.translate(255, true), Err(MemoryError::InvalidAddress));
}

#[test]
fn mmu_check_order() {
    // Not present wins over write protection and privilege.
    let mmu = ToyMMU::new([0b1111_0000; 8], PrivilegeLevel::Ring3);
    assert_eq!(mmu.translate(5, true), Err(MemoryError::PageNotPresent));
    // Write protection wins over privilege.
    let mmu = ToyMMU::new([0b0000_0001; 8], PrivilegeLevel::Ring3);
    assert_eq!(mmu.translate(5, true), Err(MemoryError::WriteProtected));
    assert_eq!(mmu.translate(5, false), Err(MemoryError::PrivilegeViolation));
}

#[test]
fn mmu_user_grant_implies_kernel_grant() {
    let table = setup_test_table();
    let user = ToyMMU::new(table, PrivilegeLevel::Ring3);
    let kernel = ToyMMU::new(table, PrivilegeLevel::Ring0);
    for va in 0u8..=70 {
        for w in [false, true] {
            let u = user.translate(va, w);
            let k = kernel.translate(va, w);
            if u.is_ok() {
                assert_eq!(u, k);
            }
            if u != k {
                assert_eq!(u, Err(MemoryError::PrivilegeViolation));
            }
            assert_ne!(k, Err(MemoryError::PrivilegeViolation));
            if user.translate(va, true).is_ok() {
                assert_eq!(user.translate(va, false), user.translate(va, true));
            }
            assert_ne!(user.translate(va, false), Err(MemoryError::WriteProtected));
        }
    }
}
