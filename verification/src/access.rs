//! Filesystem access rights and sets of them, stored as the kernel's bit mask.

use vstd::prelude::*;

verus! {

/// Every bit position that names an access right.
pub const KNOWN_BITS: u64 = 0x1fff;

/// One class of filesystem operation that a ruleset can govern.
///
/// The order of the variants is the order of the kernel's bit positions; new
/// rights are only ever appended.
#[derive(Clone, Copy, Debug, PartialEq, Eq, Structural)]
pub enum AccessRight {
    Execute,
    WriteFile,
    ReadFile,
    ReadDir,
    RemoveDir,
    RemoveFile,
    MakeChar,
    MakeDir,
    MakeReg,
    MakeSock,
    MakeFifo,
    MakeBlock,
    MakeSym,
}

impl AccessRight {
    /// The bit position that the kernel ABI gives this right.
    pub open spec fn spec_position(self) -> u64 {
        match self {
            AccessRight::Execute => 0,
            AccessRight::WriteFile => 1,
            AccessRight::ReadFile => 2,
            AccessRight::ReadDir => 3,
            AccessRight::RemoveDir => 4,
            AccessRight::RemoveFile => 5,
            AccessRight::MakeChar => 6,
            AccessRight::MakeDir => 7,
            AccessRight::MakeReg => 8,
            AccessRight::MakeSock => 9,
            AccessRight::MakeFifo => 10,
            AccessRight::MakeBlock => 11,
            AccessRight::MakeSym => 12,
        }
    }

    /// The mask with only this right's bit set.
    pub open spec fn spec_bit(self) -> u64 {
        1u64 << self.spec_position()
    }

    #[verifier::when_used_as_spec(spec_position)]
    pub fn position(self) -> (p: u64)
        ensures
            p == self.spec_position(),
            p < 13,
    {
        match self {
            AccessRight::Execute => 0,
            AccessRight::WriteFile => 1,
            AccessRight::ReadFile => 2,
            AccessRight::ReadDir => 3,
            AccessRight::RemoveDir => 4,
            AccessRight::RemoveFile => 5,
            AccessRight::MakeChar => 6,
            AccessRight::MakeDir => 7,
            AccessRight::MakeReg => 8,
            AccessRight::MakeSock => 9,
            AccessRight::MakeFifo => 10,
            AccessRight::MakeBlock => 11,
            AccessRight::MakeSym => 12,
        }
    }

    #[verifier::when_used_as_spec(spec_bit)]
    pub fn bit(self) -> (b: u64)
        ensures
            b == self.spec_bit(),
    {
        1u64 << self.position()
    }
}

/// The rights whose bits are set in `mask`; bits that name no right add nothing.
pub open spec fn rights_of(mask: u64) -> Set<AccessRight> {
    Set::new(|r: AccessRight| mask & r.spec_bit() != 0)
}

/// A set of access rights.
#[derive(Clone, Copy, Debug, PartialEq, Eq, Structural)]
pub struct AccessFs {
    bits: u64,
}

impl View for AccessFs {
    type V = Set<AccessRight>;

    open spec fn view(&self) -> Set<AccessRight> {
        rights_of(self.mask())
    }
}

proof fn lemma_bit_known(p: u64)
    by (bit_vector)
    requires
        p < 13,
    ensures
        (1u64 << p) & 0x1fff == (1u64 << p),
        (1u64 << p) != 0,
{
}

proof fn lemma_bits_apart(p: u64, q: u64)
    by (bit_vector)
    requires
        p < 13,
        q < 13,
    ensures
        ((1u64 << p) & (1u64 << q) != 0) == (p == q),
{
}

proof fn lemma_some_bit(m: u64)
    by (bit_vector)
    requires
        m & 0x1fff != 0,
    ensures
        m & (1u64 << 0) != 0 || m & (1u64 << 1) != 0 || m & (1u64 << 2) != 0 || m & (1u64 << 3)
            != 0 || m & (1u64 << 4) != 0 || m & (1u64 << 5) != 0 || m & (1u64 << 6) != 0 || m & (1u64
            << 7) != 0 || m & (1u64 << 8) != 0 || m & (1u64 << 9) != 0 || m & (1u64 << 10) != 0 || m
            & (1u64 << 11) != 0 || m & (1u64 << 12) != 0,
{
}

/// A mask within the known bits that names no right is zero.
proof fn lemma_named(m: u64)
    requires
        m & !KNOWN_BITS == 0,
        m != 0,
    ensures
        exists|r: AccessRight| m & #[trigger] r.spec_bit() != 0,
{
    assert(m & 0x1fff != 0) by (bit_vector)
        requires
            m & !0x1fffu64 == 0,
            m != 0,
    ;
    lemma_some_bit(m);
    if m & (1u64 << 0) != 0 {
        assert(m & AccessRight::Execute.spec_bit() != 0);
    } else if m & (1u64 << 1) != 0 {
        assert(m & AccessRight::WriteFile.spec_bit() != 0);
    } else if m & (1u64 << 2) != 0 {
        assert(m & AccessRight::ReadFile.spec_bit() != 0);
    } else if m & (1u64 << 3) != 0 {
        assert(m & AccessRight::ReadDir.spec_bit() != 0);
    } else if m & (1u64 << 4) != 0 {
        assert(m & AccessRight::RemoveDir.spec_bit() != 0);
    } else if m & (1u64 << 5) != 0 {
        assert(m & AccessRight::RemoveFile.spec_bit() != 0);
    } else if m & (1u64 << 6) != 0 {
        assert(m & AccessRight::MakeChar.spec_bit() != 0);
    } else if m & (1u64 << 7) != 0 {
        assert(m & AccessRight::MakeDir.spec_bit() != 0);
    } else if m & (1u64 << 8) != 0 {
        assert(m & AccessRight::MakeReg.spec_bit() != 0);
    } else if m & (1u64 << 9) != 0 {
        assert(m & AccessRight::MakeSock.spec_bit() != 0);
    } else if m & (1u64 << 10) != 0 {
        assert(m & AccessRight::MakeFifo.spec_bit() != 0);
    } else if m & (1u64 << 11) != 0 {
        assert(m & AccessRight::MakeBlock.spec_bit() != 0);
    } else {
        assert(m & AccessRight::MakeSym.spec_bit() != 0);
    }
}

impl AccessFs {
    /// No bit outside the known positions is ever stored.
    #[verifier::type_invariant]
    pub closed spec fn wf(self) -> bool {
        self.bits & !KNOWN_BITS == 0
    }

    /// The set as the kernel's bit mask.
    pub closed spec fn mask(self) -> u64 {
        self.bits
    }

    /// The set that `from_mask` builds: the known bits of `mask`.
    pub closed spec fn spec_from_mask(mask: u64) -> AccessFs {
        AccessFs { bits: mask & KNOWN_BITS }
    }

    /// The set without any right.
    pub fn empty() -> (s: AccessFs)
        ensures
            s == Self::spec_from_mask(0),
            s.mask() == 0,
            s@ == Set::<AccessRight>::empty(),
    {
        proof {
            assert(0u64 & !0x1fffu64 == 0) by (bit_vector);
            assert(0u64 & 0x1fffu64 == 0) by (bit_vector);
        }
        let s = AccessFs { bits: 0 };
        proof {
            assert forall|r: AccessRight| !s@.contains(r) by {
                let b = r.spec_bit();
                assert(0u64 & b == 0) by (bit_vector);
            }
            assert(s@ =~= Set::<AccessRight>::empty());
        }
        s
    }

    /// The set that holds `right` alone.
    pub fn only(right: AccessRight) -> (s: AccessFs)
        ensures
            s == Self::spec_from_mask(right.spec_bit()),
            s.mask() == right.spec_bit(),
            s@ == Set::<AccessRight>::empty().insert(right),
    {
        let p = right.position();
        proof {
            lemma_bit_known(p);
            assert((1u64 << p) & !0x1fffu64 == 0) by (bit_vector)
                requires
                    p < 13,
            ;
        }
        let s = AccessFs { bits: 1u64 << p };
        proof {
            assert forall|r: AccessRight| s@.contains(r) == (r == right) by {
                lemma_bits_apart(p, r.spec_position());
            }
            assert(s@ =~= Set::<AccessRight>::empty().insert(right));
        }
        s
    }

    /// The set of the rights that `mask` names. Bits at unknown positions are
    /// dropped, so they never come back as a right.
    pub fn from_mask(mask: u64) -> (s: AccessFs)
        ensures
            s == Self::spec_from_mask(mask),
            s.mask() == mask & KNOWN_BITS,
            s@ == rights_of(mask),
    {
        proof {
            assert((mask & 0x1fffu64) & !0x1fffu64 == 0) by (bit_vector);
        }
        let s = AccessFs { bits: mask & KNOWN_BITS };
        proof {
            assert forall|r: AccessRight| s@.contains(r) == rights_of(mask).contains(r) by {
                let b = r.spec_bit();
                lemma_bit_known(r.spec_position());
                assert(((mask & 0x1fffu64) & b != 0) == (mask & b != 0)) by (bit_vector)
                    requires
                        b & 0x1fff == b,
                ;
            }
            assert(s@ =~= rights_of(mask));
        }
        s
    }

    /// The bit mask to hand to the kernel. Only known bits are ever set in it.
    pub fn to_mask(&self) -> (m: u64)
        ensures
            m == self.mask(),
            m & !KNOWN_BITS == 0,
            rights_of(m) == self@,
    {
        proof {
            use_type_invariant(self);
        }
        self.bits
    }

    /// Whether the set holds no right.
    pub fn is_empty(&self) -> (b: bool)
        ensures
            b == (self@ == Set::<AccessRight>::empty()),
            b == (self.mask() == 0),
    {
        proof {
            use_type_invariant(self);
            if self.bits != 0 {
                lemma_named(self.bits);
                let r = choose|r: AccessRight| self.bits & #[trigger] r.spec_bit() != 0;
                assert(self@.contains(r));
            } else {
                assert forall|r: AccessRight| !self@.contains(r) by {
                    let b = r.spec_bit();
                    assert(0u64 & b == 0) by (bit_vector);
                }
                assert(self@ =~= Set::<AccessRight>::empty());
            }
        }
        self.bits == 0
    }

    /// The rights of either set.
    pub fn union(self, other: AccessFs) -> (s: AccessFs)
        ensures
            s.mask() == self.mask() | other.mask(),
            s@ == self@.union(other@),
    {
        let a = self.bits;
        let b = other.bits;
        proof {
            use_type_invariant(self);
            use_type_invariant(other);
            assert((a | b) & !0x1fffu64 == 0) by (bit_vector)
                requires
                    a & !0x1fffu64 == 0,
                    b & !0x1fffu64 == 0,
            ;
        }
        let s = AccessFs { bits: a | b };
        proof {
            assert forall|r: AccessRight|
                s@.contains(r) == (self@.contains(r) || other@.contains(r)) by {
                let x = r.spec_bit();
                assert(((a | b) & x != 0) == (a & x != 0 || b & x != 0)) by (bit_vector);
            }
            assert(s@ =~= self@.union(other@));
        }
        s
    }

    /// Whether `right` is in the set.
    pub fn contains(&self, right: AccessRight) -> (b: bool)
        ensures
            b == self@.contains(right),
    {
        self.bits & right.bit() != 0
    }

    /// Whether every right of this set is in `other`.
    pub fn is_subset_of(&self, other: &AccessFs) -> (b: bool)
        ensures
            b == self@.subset_of(other@),
            b == (self.mask() & !other.mask() == 0),
    {
        let a = self.bits;
        let o = other.bits;
        proof {
            use_type_invariant(self);
            if a & !o == 0 {
                assert forall|r: AccessRight| self@.contains(r) implies other@.contains(r) by {
                    let x = r.spec_bit();
                    assert(a & x != 0 ==> o & x != 0) by (bit_vector)
                        requires
                            a & !o == 0,
                    ;
                }
            } else {
                let d = a & !o;
                assert(d & !0x1fffu64 == 0) by (bit_vector)
                    requires
                        d == a & !o,
                        a & !0x1fffu64 == 0,
                ;
                lemma_named(d);
                let r = choose|r: AccessRight| d & #[trigger] r.spec_bit() != 0;
                let x = r.spec_bit();
                assert(a & x != 0 && o & x != x) by (bit_vector)
                    requires
                        d == a & !o,
                        d & x != 0,
                ;
                let q = r.spec_position();
                assert(o & x == 0) by (bit_vector)
                    requires
                        o & x != x,
                        x == 1u64 << q,
                        q < 13,
                ;
                assert(self@.contains(r) && !other@.contains(r));
            }
        }
        a & !o == 0
    }
}

/// Reading a set's mask back gives the same set.
pub proof fn lemma_set_round_trip(s: AccessFs)
    requires
        s.wf(),
    ensures
        AccessFs::spec_from_mask(s.mask()) == s,
        rights_of(s.mask()) == s@,
{
    let b = s.mask();
    assert(b & 0x1fffu64 == b) by (bit_vector)
        requires
            b & !0x1fffu64 == 0,
    ;
}

/// A mask made of known bits alone survives the trip through a set unchanged;
/// of any mask, exactly the known bits survive.
pub proof fn lemma_mask_round_trip(mask: u64)
    ensures
        AccessFs::spec_from_mask(mask).wf(),
        AccessFs::spec_from_mask(mask).mask() == mask & KNOWN_BITS,
        AccessFs::spec_from_mask(mask).mask() & !KNOWN_BITS == 0,
        mask & !KNOWN_BITS == 0 ==> AccessFs::spec_from_mask(mask).mask() == mask,
{
    assert((mask & 0x1fffu64) & !0x1fffu64 == 0) by (bit_vector);
    if mask & !KNOWN_BITS == 0 {
        assert(mask & 0x1fffu64 == mask) by (bit_vector)
            requires
                mask & !0x1fffu64 == 0,
        ;
    }
}

/// A right is in the set built from a mask only if the mask has that right's
/// own bit: a bit at an unknown position never names a right.
pub proof fn lemma_unknown_bits_name_nothing(mask: u64, right: AccessRight)
    ensures
        AccessFs::spec_from_mask(mask)@.contains(right) <==> mask & right.spec_bit() != 0,
        (mask & KNOWN_BITS == 0) ==> AccessFs::spec_from_mask(mask)@ == Set::<AccessRight>::empty(),
{
    let b = right.spec_bit();
    lemma_bit_known(right.spec_position());
    assert(((mask & 0x1fffu64) & b != 0) == (mask & b != 0)) by (bit_vector)
        requires
            b & 0x1fff == b,
    ;
    if mask & KNOWN_BITS == 0 {
        assert forall|r: AccessRight| !AccessFs::spec_from_mask(mask)@.contains(r) by {
            let x = r.spec_bit();
            assert(0u64 & x == 0) by (bit_vector);
        }
        assert(AccessFs::spec_from_mask(mask)@ =~= Set::<AccessRight>::empty());
    }
}

/// Two sets that hold the same rights are the same value.
pub proof fn lemma_same_rights_same_set(s: AccessFs, t: AccessFs)
    requires
        s.wf(),
        t.wf(),
        s@ == t@,
    ensures
        s == t,
{
    let a = s.mask();
    let b = t.mask();
    if a != b {
        let d = a ^ b;
        assert(d & !0x1fffu64 == 0 && d != 0) by (bit_vector)
            requires
                d == a ^ b,
                a != b,
                a & !0x1fffu64 == 0,
                b & !0x1fffu64 == 0,
        ;
        lemma_named(d);
        let r = choose|r: AccessRight| d & #[trigger] r.spec_bit() != 0;
        let x = r.spec_bit();
        let q = r.spec_position();
        assert((a & x != 0) != (b & x != 0)) by (bit_vector)
            requires
                d == a ^ b,
                d & x != 0,
                x == 1u64 << q,
                q < 13,
        ;
        assert(s@.contains(r) == (a & x != 0));
        assert(t@.contains(r) == (b & x != 0));
        assert(s@.contains(r) != t@.contains(r));
    }
}

} // verus!
