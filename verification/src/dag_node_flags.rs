use vstd::prelude::*;

verus! {

/// The individual flags that a DAG node can carry.
#[derive(Copy, Clone, PartialEq, Eq, Debug)]
pub enum DagNodeFlag {
    /// Reduced up to strategy by equations.
    Reduced,
    /// Copied in current copy operation; copy pointer valid.
    Copied,
    /// Reduced and not rewritable by rules.
    Unrewritable,
    /// Unrewritable and all subterms unstackable or frozen.
    Unstackable,
    /// No variables occur below this node.
    Ground,
    /// Node has a valid hash value.
    HashValid,
}

/// The bit that stands for a flag.
pub open spec fn flag_bit(flag: DagNodeFlag) -> u32 {
    match flag {
        DagNodeFlag::Reduced => 1,
        DagNodeFlag::Copied => 2,
        DagNodeFlag::Unrewritable => 4,
        DagNodeFlag::Unstackable => 8,
        DagNodeFlag::Ground => 16,
        DagNodeFlag::HashValid => 32,
    }
}

impl DagNodeFlag {
    /// The bit of this flag in a `DagNodeFlags` word.
    pub fn bit(self) -> (r: u32)
        ensures
            r == flag_bit(self),
    {
        match self {
            DagNodeFlag::Reduced => 1,
            DagNodeFlag::Copied => 2,
            DagNodeFlag::Unrewritable => 4,
            DagNodeFlag::Unstackable => 8,
            DagNodeFlag::Ground => 16,
            DagNodeFlag::HashValid => 32,
        }
    }

    /// `IrreducibleByVariantEquations` shares its bit with `Unrewritable`, since the rule rewriting
    /// strategy that needs `Unrewritable` is never combined with variant narrowing.
    pub fn irreducible_by_variant_equations() -> (r: DagNodeFlag)
        ensures
            r == DagNodeFlag::Unrewritable,
    {
        DagNodeFlag::Unrewritable
    }

    /// The union of two flags.
    pub fn bitor(self, rhs: DagNodeFlag) -> (r: DagNodeFlags)
        ensures
            r.0 == flag_bit(self) | flag_bit(rhs),
    {
        DagNodeFlags(self.bit() | rhs.bit())
    }

    /// The union of a flag and a set of flags.
    pub fn bitor_flags(self, rhs: DagNodeFlags) -> (r: DagNodeFlags)
        ensures
            r.0 == flag_bit(self) | rhs.0,
    {
        DagNodeFlags(self.bit() | rhs.0)
    }
}

/// A set of `DagNodeFlag`s, one bit each.
#[derive(Copy, Clone, PartialEq, Eq, Debug, Default, Hash)]
pub struct DagNodeFlags(pub u32);

/// The flags that a copy of a node keeps: reduced, unrewritable, unstackable and ground.
pub open spec fn rewriting_flags_bits() -> u32 {
    1u32 | 4u32 | 8u32 | 16u32
}

/// Whether a flag is set in a word of flags.
pub open spec fn has_flag(flags: u32, flag: DagNodeFlag) -> bool {
    flags & flag_bit(flag) != 0
}

impl DagNodeFlags {
    /// The flags that a copy of a node keeps.
    pub fn rewriting_flags() -> (r: DagNodeFlags)
        ensures
            r.0 == rewriting_flags_bits(),
            r.0 == 29,
    {
        assert(1u32 | 4u32 | 8u32 | 16u32 == 29u32) by (bit_vector);
        DagNodeFlags(1u32 | 4u32 | 8u32 | 16u32)
    }

    /// The set holding just `flag`.
    pub fn from_flag(flag: DagNodeFlag) -> (r: DagNodeFlags)
        ensures
            r.0 == flag_bit(flag),
    {
        DagNodeFlags(flag.bit())
    }

    /// Union with a single flag.
    pub fn bitor_flag(self, rhs: DagNodeFlag) -> (r: DagNodeFlags)
        ensures
            r.0 == self.0 | flag_bit(rhs),
    {
        DagNodeFlags(self.0 | rhs.bit())
    }

    /// Union of two sets of flags.
    pub fn bitor(self, rhs: DagNodeFlags) -> (r: DagNodeFlags)
        ensures
            r.0 == self.0 | rhs.0,
    {
        DagNodeFlags(self.0 | rhs.0)
    }

    /// Intersection of two sets of flags.
    pub fn bitand(self, rhs: DagNodeFlags) -> (r: DagNodeFlags)
        ensures
            r.0 == self.0 & rhs.0,
    {
        DagNodeFlags(self.0 & rhs.0)
    }

    /// Adds to `self` those of the rewriting flags (reduced, unrewritable, unstackable, ground)
    /// that `other_flags` has; the flags of `self` stay.
    pub fn set_copied_flags(&mut self, other_flags: DagNodeFlags)
        ensures
            final(self).0 == old(self).0 | (rewriting_flags_bits() & other_flags.0),
    {
        let r = DagNodeFlag::Reduced.bitor(DagNodeFlag::Unrewritable).bitor_flag(DagNodeFlag::Unstackable).bitor_flag(
            DagNodeFlag::Ground,
        );
        self.0 = self.0 | r.bitand(other_flags).0;
    }

    #[inline(always)]
    pub fn is_reduced(&self) -> (r: bool)
        ensures
            r == has_flag(self.0, DagNodeFlag::Reduced),
    {
        (self.0 & DagNodeFlag::Reduced.bit()) != 0
    }

    #[inline(always)]
    pub fn is_copied(&self) -> (r: bool)
        ensures
            r == has_flag(self.0, DagNodeFlag::Copied),
    {
        (self.0 & DagNodeFlag::Copied.bit()) != 0
    }

    #[inline(always)]
    pub fn is_unrewritable(&self) -> (r: bool)
        ensures
            r == has_flag(self.0, DagNodeFlag::Unrewritable),
    {
        (self.0 & DagNodeFlag::Unrewritable.bit()) != 0
    }

    #[inline(always)]
    pub fn is_unstackable(&self) -> (r: bool)
        ensures
            r == has_flag(self.0, DagNodeFlag::Unstackable),
    {
        (self.0 & DagNodeFlag::Unstackable.bit()) != 0
    }

    #[inline(always)]
    pub fn is_ground(&self) -> (r: bool)
        ensures
            r == has_flag(self.0, DagNodeFlag::Ground),
    {
        (self.0 & DagNodeFlag::Ground.bit()) != 0
    }

    #[inline(always)]
    pub fn is_hash_valid(&self) -> (r: bool)
        ensures
            r == has_flag(self.0, DagNodeFlag::HashValid),
    {
        (self.0 & DagNodeFlag::HashValid.bit()) != 0
    }
}

/// Setting a flag makes its test true and leaves every other flag's test as it was.
pub proof fn lemma_set_flag_tests(flags: u32, set: DagNodeFlag, test: DagNodeFlag)
    ensures
        has_flag(flags | flag_bit(set), set),
        set != test ==> (has_flag(flags | flag_bit(set), test) == has_flag(flags, test)),
{
    let a = flag_bit(set);
    let b = flag_bit(test);
    assert(a == 1 || a == 2 || a == 4 || a == 8 || a == 16 || a == 32);
    assert(forall|f: u32, x: u32| (x == 1 || x == 2 || x == 4 || x == 8 || x == 16 || x == 32) ==> #[trigger] ((f | x) & x) != 0) by (bit_vector);
    assert(forall|f: u32, x: u32, y: u32|
        (x == 1 || x == 2 || x == 4 || x == 8 || x == 16 || x == 32) &&
        (y == 1 || y == 2 || y == 4 || y == 8 || y == 16 || y == 32) && x != y ==>
        (#[trigger] ((f | x) & y) != 0) == ((f & y) != 0)) by (bit_vector);
}

/// `set_copied_flags` never clears a flag, never sets `Copied` or `HashValid`, and sets each
/// rewriting flag exactly when the other node has it.
pub proof fn lemma_copied_flags(flags: u32, other: u32, test: DagNodeFlag)
    ensures
        has_flag(flags, test) ==> has_flag(flags | (rewriting_flags_bits() & other), test),
        (test == DagNodeFlag::Copied || test == DagNodeFlag::HashValid) ==> has_flag(
            flags | (rewriting_flags_bits() & other),
            test,
        ) == has_flag(flags, test),
        (test != DagNodeFlag::Copied && test != DagNodeFlag::HashValid) ==> has_flag(
            flags | (rewriting_flags_bits() & other),
            test,
        ) == (has_flag(flags, test) || has_flag(other, test)),
{
    let b = flag_bit(test);
    assert(b == 1 || b == 2 || b == 4 || b == 8 || b == 16 || b == 32);
    assert(forall|f: u32, o: u32, y: u32| (y == 2 || y == 32) ==>
        (#[trigger] ((f | (29u32 & o)) & y) != 0) == ((f & y) != 0)) by (bit_vector);
    assert(forall|f: u32, o: u32, y: u32| (y == 1 || y == 4 || y == 8 || y == 16) ==>
        (#[trigger] ((f | (29u32 & o)) & y) != 0) == ((f & y) != 0 || (o & y) != 0)) by (bit_vector);
    assert(1u32 | 4u32 | 8u32 | 16u32 == 29u32) by (bit_vector);
}

} // verus!
