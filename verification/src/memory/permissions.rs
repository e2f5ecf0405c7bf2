//! Access permissions of a memory region: read, write and execute, packed
//! into the three low bits of a byte.

use vstd::prelude::*;

verus! {

/// One kind of access.
#[derive(Debug, Clone, Copy, PartialEq, Eq, Structural)]
pub enum Permission {
    NoAccess,
    Read,
    Write,
    Execute,
}

impl Permission {
    /// The bit that stands for this kind of access; `NoAccess` has no bit.
    pub open spec fn mask(self) -> u8 {
        match self {
            Permission::NoAccess => 0b000,
            Permission::Read => 0b001,
            Permission::Write => 0b010,
            Permission::Execute => 0b100,
        }
    }

    /// The bit that stands for this kind of access.
    pub fn bit(self) -> (b: u8)
        ensures
            b == self.mask(),
    {
        match self {
            Permission::NoAccess => 0b000,
            Permission::Read => 0b001,
            Permission::Write => 0b010,
            Permission::Execute => 0b100,
        }
    }
}

/// A set of permissions.
#[derive(Debug, Clone, Copy, PartialEq, Eq, Structural)]
pub struct AccessPermissions {
    bits: u8,
}

impl View for AccessPermissions {
    type V = u8;

    closed spec fn view(&self) -> u8 {
        self.bits
    }
}

impl AccessPermissions {
    /// Whether every bit of `permission` is set. `NoAccess` is always granted.
    pub open spec fn allows(self, permission: Permission) -> bool {
        self@ & permission.mask() == permission.mask()
    }

    /// Read and write access, as a value of specifications.
    pub closed spec fn read_write_spec() -> AccessPermissions {
        AccessPermissions { bits: 0b011 }
    }

    /// No access at all.
    pub fn none() -> (r: Self)
        ensures
            r@ == 0b000,
    {
        AccessPermissions { bits: 0b000 }
    }

    /// Read and write access, the default.
    pub fn read_write() -> (r: Self)
        ensures
            r@ == 0b011,
            r == AccessPermissions::read_write_spec(),
    {
        AccessPermissions { bits: 0b011 }
    }

    /// Every access.
    pub fn all() -> (r: Self)
        ensures
            r@ == 0b111,
    {
        AccessPermissions { bits: 0b111 }
    }

    /// The permissions with the three kinds of access granted as the flags
    /// say.
    pub fn new(read: bool, write: bool, execute: bool) -> (r: Self)
        ensures
            r@ == (if read { 1u8 } else { 0u8 }) + (if write { 2u8 } else { 0u8 }) + (if execute {
                4u8
            } else {
                0u8
            }),
            r.allows(Permission::Read) == read,
            r.allows(Permission::Write) == write,
            r.allows(Permission::Execute) == execute,
    {
        let mut bits: u8 = 0;
        if read {
            bits |= 0b001;
        }
        let ghost b1 = bits;
        if write {
            bits |= 0b010;
        }
        let ghost b2 = bits;
        if execute {
            bits |= 0b100;
        }
        proof {
            assert(0u8 | 0b001u8 == 1u8) by (bit_vector);
            assert(b1 | 0b010u8 == b1 + 2u8) by (bit_vector)
                requires
                    b1 == 0u8 || b1 == 1u8,
            ;
            assert(b2 | 0b100u8 == b2 + 4u8) by (bit_vector)
                requires
                    b2 <= 3u8,
            ;
            assert(bits & 0b001u8 == 0b001u8 <==> (bits == 1 || bits == 3 || bits == 5 || bits
                == 7)) by (bit_vector)
                requires
                    bits <= 7u8,
            ;
            assert(bits & 0b010u8 == 0b010u8 <==> (bits == 2 || bits == 3 || bits == 6 || bits
                == 7)) by (bit_vector)
                requires
                    bits <= 7u8,
            ;
            assert(bits & 0b100u8 == 0b100u8 <==> (bits >= 4)) by (bit_vector)
                requires
                    bits <= 7u8,
            ;
        }
        AccessPermissions { bits }
    }

    /// The permissions that the three low bits of `bits` stand for.
    pub fn from_bits(bits: u8) -> (r: Self)
        ensures
            r@ == bits & 0b111,
    {
        AccessPermissions { bits: bits & 0b111 }
    }

    /// Whether `permission` is granted.
    pub fn has_permission(self, permission: Permission) -> (r: bool)
        ensures
            r == self.allows(permission),
    {
        (self.bits & permission.bit()) == permission.bit()
    }

    /// Grants `permission` and keeps what was granted.
    pub fn add_permission(&mut self, permission: Permission)
        ensures
            final(self)@ == old(self)@ | permission.mask(),
            final(self).allows(permission),
            forall|p: Permission| old(self).allows(p) ==> final(self).allows(p),
    {
        let ghost before = self.bits;
        let bit = permission.bit();
        self.bits |= bit;
        proof {
            let after = self.bits;
            assert((before | bit) & bit == bit) by (bit_vector);
            assert forall|p: Permission| old(self).allows(p) implies self.allows(p) by {
                let q = p.mask();
                assert(before & q == q ==> (before | bit) & q == q) by (bit_vector);
            }
        }
    }

    /// Withdraws `permission` and keeps the other kinds of access as they
    /// were.
    pub fn remove_permission(&mut self, permission: Permission)
        ensures
            final(self)@ == old(self)@ & !permission.mask(),
            permission != Permission::NoAccess ==> !final(self).allows(permission),
            forall|p: Permission|
                p != permission ==> final(self).allows(p) == old(self).allows(p),
    {
        let ghost before = self.bits;
        let bit = permission.bit();
        self.bits &= !bit;
        proof {
            assert(bit != 0u8 ==> (before & !bit) & bit != bit) by (bit_vector);
            assert forall|p: Permission| p != permission implies self.allows(p) == old(self).allows(p) by {
                let q = p.mask();
                assert((q == 0u8 || q == 1u8 || q == 2u8 || q == 4u8) && (bit == 0u8 || bit == 1u8
                    || bit == 2u8 || bit == 4u8) && (q != bit || q == 0u8) ==> (((before & !bit)
                    & q == q) <==> (before & q == q))) by (bit_vector);
            }
        }
    }

    /// Whether reading is granted.
    pub fn can_read(self) -> (r: bool)
        ensures
            r == self.allows(Permission::Read),
    {
        self.has_permission(Permission::Read)
    }

    /// Whether writing is granted.
    pub fn can_write(self) -> (r: bool)
        ensures
            r == self.allows(Permission::Write),
    {
        self.has_permission(Permission::Write)
    }

    /// Whether executing is granted.
    pub fn can_execute(self) -> (r: bool)
        ensures
            r == self.allows(Permission::Execute),
    {
        self.has_permission(Permission::Execute)
    }

    /// The permissions as bits.
    pub fn as_bits(self) -> (bits: u8)
        ensures
            bits == self@,
    {
        self.bits
    }

    /// The permissions granted by both.
    pub fn intersection(self, other: Self) -> (r: Self)
        ensures
            r@ == self@ & other@,
    {
        AccessPermissions { bits: self.bits & other.bits }
    }

    /// The permissions granted by either.
    pub fn union(self, other: Self) -> (r: Self)
        ensures
            r@ == self@ | other@,
    {
        AccessPermissions { bits: self.bits | other.bits }
    }

    /// The permissions in the usual three letters, a dash for each kind of
    /// access that is withheld.
    pub fn to_text(self) -> (text: String)
        ensures
            text@ == (if self.allows(Permission::Read) {
                "r"@
            } else {
                "-"@
            }) + (if self.allows(Permission::Write) {
                "w"@
            } else {
                "-"@
            }) + (if self.allows(Permission::Execute) {
                "x"@
            } else {
                "-"@
            }),
    {
        proof {
            reveal_strlit("r");
            reveal_strlit("w");
            reveal_strlit("x");
            reveal_strlit("-");
            reveal_strlit("---");
            reveal_strlit("--x");
            reveal_strlit("-w-");
            reveal_strlit("-wx");
            reveal_strlit("r--");
            reveal_strlit("r-x");
            reveal_strlit("rw-");
            reveal_strlit("rwx");
        }
        let text = match (self.can_read(), self.can_write(), self.can_execute()) {
            (false, false, false) => "---",
            (false, false, true) => "--x",
            (false, true, false) => "-w-",
            (false, true, true) => "-wx",
            (true, false, false) => "r--",
            (true, false, true) => "r-x",
            (true, true, false) => "rw-",
            (true, true, true) => "rwx",
        };
        let owned = text.to_string();
        assert(owned@ =~= (if self.allows(Permission::Read) {
            "r"@
        } else {
            "-"@
        }) + (if self.allows(Permission::Write) {
            "w"@
        } else {
            "-"@
        }) + (if self.allows(Permission::Execute) {
            "x"@
        } else {
            "-"@
        }));
        owned
    }
}

impl Default for AccessPermissions {
    fn default() -> (r: Self)
        ensures
            r@ == 0b011,
            r == AccessPermissions::read_write_spec(),
    {
        AccessPermissions::read_write()
    }
}

} // verus!
