use landlock::access::{AccessFs, AccessRight, KNOWN_BITS};

fn every_right() -> Vec<AccessRight> {
    vec![
        AccessRight::Execute,
        AccessRight::WriteFile,
        AccessRight::ReadFile,
        AccessRight::ReadDir,
        AccessRight::RemoveDir,
        AccessRight::RemoveFile,
        AccessRight::MakeChar,
        AccessRight::MakeDir,
        AccessRight::MakeReg,
        AccessRight::MakeSock,
        AccessRight::MakeFifo,
        AccessRight::MakeBlock,
        AccessRight::MakeSym,
    ]
}

#[test]
fn bit_values_follow_the_kernel_abi() {
    assert_eq!(AccessRight::Execute.bit(), 1);
    assert_eq!(AccessRight::WriteFile.bit(), 2);
    assert_eq!(AccessRight::ReadFile.bit(), 4);
    assert_eq!(AccessRight::ReadDir.bit(), 8);
    assert_eq!(AccessRight::RemoveDir.bit(), 16);
    assert_eq!(AccessRight::RemoveFile.bit(), 32);
    assert_eq!(AccessRight::MakeChar.bit(), 64);
    assert_eq!(AccessRight::MakeDir.bit(), 128);
    assert_eq!(AccessRight::MakeReg.bit(), 256);
    assert_eq!(AccessRight::MakeSock.bit(), 512);
    assert_eq!(AccessRight::MakeFifo.bit(), 1024);
    assert_eq!(AccessRight::MakeBlock.bit(), 2048);
    assert_eq!(AccessRight::MakeSym.bit(), 4096);
}

#[test]
fn positions_are_consecutive() {
    let rights = every_right();
    for (i, r) in rights.iter().enumerate() {
        assert_eq!(r.position(), i as u64);
    }
}

#[test]
fn known_bits_are_the_thirteen_rights() {
    let mut mask = 0u64;
    for r in every_right() {
        mask |= r.bit();
    }
    assert_eq!(mask, KNOWN_BITS);
    assert_eq!(KNOWN_BITS, 0x1fff);
}

#[test]
fn empty_set_has_no_right() {
    let s = AccessFs::empty();
    assert_eq!(s.to_mask(), 0);
    assert!(s.is_empty());
    for r in every_right() {
        assert!(!s.contains(r));
    }
}

#[test]
fn only_holds_one_right() {
    let s = AccessFs::only(AccessRight::ReadDir);
    assert_eq!(s.to_mask(), 8);
    assert!(!s.is_empty());
    for r in every_right() {
        assert_eq!(s.contains(r), r == AccessRight::ReadDir);
    }
}

#[test]
fn union_joins_rights() {
    let a = AccessFs::only(AccessRight::ReadFile);
    let b = AccessFs::only(AccessRight::ReadDir);
    let u = a.union(b);
    assert_eq!(u.to_mask(), 12);
    assert!(u.contains(AccessRight::ReadFile));
    assert!(u.contains(AccessRight::ReadDir));
    assert!(!u.contains(AccessRight::WriteFile));
    assert_eq!(u.union(a), u);
    assert_eq!(a.union(AccessFs::empty()), a);
}

#[test]
fn subset_test() {
    let read = AccessFs::from_mask(4 | 8);
    let read_write = AccessFs::from_mask(2 | 4 | 8);
    assert!(read.is_subset_of(&read_write));
    assert!(!read_write.is_subset_of(&read));
    assert!(read.is_subset_of(&read));
    assert!(AccessFs::empty().is_subset_of(&read));
    assert!(!read.is_subset_of(&AccessFs::empty()));
}

#[test]
fn mask_of_known_bits_round_trips() {
    for m in [0u64, 1, 2, 4, 12, 0x1000, 0x0aaa, 0x1555, 0x1fff] {
        assert_eq!(AccessFs::from_mask(m).to_mask(), m);
    }
}

#[test]
fn unknown_bits_are_dropped() {
    assert_eq!(AccessFs::from_mask(0x2000).to_mask(), 0);
    assert!(AccessFs::from_mask(0x2000).is_empty());
    assert_eq!(AccessFs::from_mask(u64::MAX).to_mask(), 0x1fff);
    assert_eq!(AccessFs::from_mask(0xffff_0000_0000_2004).to_mask(), 4);
    let s = AccessFs::from_mask(0x8000_0000_0000_0000 | 2);
    for r in every_right() {
        assert_eq!(s.contains(r), r == AccessRight::WriteFile);
    }
}

#[test]
fn set_round_trips_through_its_mask() {
    for m in [0u64, 3, 0x1fff, 0x1234, u64::MAX] {
        let s = AccessFs::from_mask(m);
        assert_eq!(AccessFs::from_mask(s.to_mask()), s);
    }
    for r in every_right() {
        let s = AccessFs::only(r);
        assert_eq!(AccessFs::from_mask(s.to_mask()), s);
        assert_eq!(AccessFs::from_mask(r.bit()), s);
    }
}
