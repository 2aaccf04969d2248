//! A `SymbolType` is a bitfield of symbol attributes.
use vstd::prelude::*;

verus! {

/// Mask of the flag bits of a symbol type word.
pub const FLAG_MASK: u32 = 0xffffff;

/// Shift of the basic type stored above the flag bits.
pub const TYPE_SHIFT: u32 = 24;

/// The basic kinds of symbols.
#[derive(Copy, Clone, PartialEq, Eq, PartialOrd, Ord, Debug)]
pub enum BasicSymbolTypes {
    Standard,
    //	System created symbols.
    Variable,
    SortTest,
    InternalTuple,
    //	Special properties.
    SystemTrue,
    SystemFalse,
    Bubble,
    //	Special symbols that do not deal with attachments.
    Float,
    String,
    //	Special symbols that do deal with attachments.
    BranchSymbol,
    EqualitySymbol,
    FloatOp,
    StringOp,
    QuotedIdentifier,
    QuotedIdentifierOp,
    ModelCheckerSymbol,
    SatSolverSymbol,
    MetaLevelOpSymbol,
    LoopSymbol,
    SuccSymbol,
    MinusSymbol,
    NumberOpSymbol,
    AcuNumberOpSymbol,
    CuiNumberOpSymbol,
    DivisionSymbol,
    RandomOpSymbol,
    MatrixOpSymbol,
    CounterSymbol,
    SocketManagerSymbol,
    InterpreterManagerSymbol,
    SmtSymbol,
    SmtNumberSymbol,
    FileManagerSymbol,
    StreamManagerSymbol,
    DirectoryManagerSymbol,
    ProcessManagerSymbol,
    TimeManagerSymbol,
    ObjectConstructorSymbol,
    EndOfSymbolsWithAttachments,
}

/// The attributes a symbol can be declared with.
#[derive(Copy, Clone, PartialEq, Eq, PartialOrd, Ord, Debug)]
pub enum SymbolAttribute {
    // Syntactic attributes.
    Prec,
    Gather,
    Format,
    Latex,
    // Semantic attributes.
    Strat,
    Memo,
    Frozen,
    Ctor,
    // OO attributes.
    Config,
    Object,
    Message,
    /// Set by a msg statement rather than an attribute.
    MsgStatement,
    // Theory attributes.
    Assoc,
    Comm,
    LeftId,
    RightId,
    Idem,
    Iter,
    //	Misc.
    PConst,
    Poly,
    Ditto,
}

/// The bit of an attribute.
pub open spec fn attribute_bit(a: SymbolAttribute) -> u32 {
    match a {
        SymbolAttribute::Prec => 0x1,
        SymbolAttribute::Gather => 0x2,
        SymbolAttribute::Format => 0x4,
        SymbolAttribute::Latex => 0x8,
        SymbolAttribute::Strat => 0x10,
        SymbolAttribute::Memo => 0x20,
        SymbolAttribute::Frozen => 0x40,
        SymbolAttribute::Ctor => 0x80,
        SymbolAttribute::Config => 0x100,
        SymbolAttribute::Object => 0x200,
        SymbolAttribute::Message => 0x400,
        SymbolAttribute::MsgStatement => 0x800,
        SymbolAttribute::Assoc => 0x1000,
        SymbolAttribute::Comm => 0x2000,
        SymbolAttribute::LeftId => 0x4000,
        SymbolAttribute::RightId => 0x8000,
        SymbolAttribute::Idem => 0x10000,
        SymbolAttribute::Iter => 0x20000,
        SymbolAttribute::PConst => 0x200000,
        SymbolAttribute::Poly => 0x400000,
        SymbolAttribute::Ditto => 0x800000,
    }
}

impl SymbolAttribute {
    /// The bit of this attribute in a `SymbolType` word.
    pub fn bit(self) -> (r: u32)
        ensures
            r == attribute_bit(self),
    {
        match self {
            SymbolAttribute::Prec => 0x1,
            SymbolAttribute::Gather => 0x2,
            SymbolAttribute::Format => 0x4,
            SymbolAttribute::Latex => 0x8,
            SymbolAttribute::Strat => 0x10,
            SymbolAttribute::Memo => 0x20,
            SymbolAttribute::Frozen => 0x40,
            SymbolAttribute::Ctor => 0x80,
            SymbolAttribute::Config => 0x100,
            SymbolAttribute::Object => 0x200,
            SymbolAttribute::Message => 0x400,
            SymbolAttribute::MsgStatement => 0x800,
            SymbolAttribute::Assoc => 0x1000,
            SymbolAttribute::Comm => 0x2000,
            SymbolAttribute::LeftId => 0x4000,
            SymbolAttribute::RightId => 0x8000,
            SymbolAttribute::Idem => 0x10000,
            SymbolAttribute::Iter => 0x20000,
            SymbolAttribute::PConst => 0x200000,
            SymbolAttribute::Poly => 0x400000,
            SymbolAttribute::Ditto => 0x800000,
        }
    }

    /// The theory axioms: assoc, comm, left and right identity, idempotence.
    pub fn axioms() -> (r: SymbolType)
        ensures
            r.0 == 0x1000u32 | 0x2000u32 | 0x4000u32 | 0x8000u32 | 0x10000u32,
    {
        SymbolType(
            SymbolAttribute::Assoc.bit() | SymbolAttribute::Comm.bit() | SymbolAttribute::LeftId.bit()
                | SymbolAttribute::RightId.bit() | SymbolAttribute::Idem.bit(),
        )
    }

    /// The attributes that make a symbol collapse: left and right identity, idempotence.
    pub fn collapse() -> (r: SymbolType)
        ensures
            r.0 == 0x4000u32 | 0x8000u32 | 0x10000u32,
    {
        SymbolType(SymbolAttribute::LeftId.bit() | SymbolAttribute::RightId.bit() | SymbolAttribute::Idem.bit())
    }

    /// Simple attributes are just a flag without additional data.
    pub fn simple_attributes() -> (r: SymbolType)
        ensures
            r.0 == 0x1000u32 | 0x2000u32 | 0x100u32 | 0x80u32 | 0x10000u32 | 0x20000u32 | 0x20u32
                | 0x400u32 | 0x200u32 | 0x200000u32,
    {
        SymbolType(
            SymbolAttribute::Assoc.bit() | SymbolAttribute::Comm.bit() | SymbolAttribute::Config.bit()
                | SymbolAttribute::Ctor.bit() | SymbolAttribute::Idem.bit() | SymbolAttribute::Iter.bit()
                | SymbolAttribute::Memo.bit() | SymbolAttribute::Message.bit()
                | SymbolAttribute::Object.bit() | SymbolAttribute::PConst.bit(),
        )
    }

    /// All flagged attributes except ctor, poly and ditto: they must agree between the
    /// declarations of an operator.
    pub fn attributes() -> (r: SymbolType)
        ensures
            r.0 == (0x1000u32 | 0x2000u32 | 0x4000u32 | 0x8000u32 | 0x10000u32) | 0x100u32 | 0x4u32
                | 0x40u32 | 0x2u32 | 0x20000u32 | 0x8u32 | 0x20u32 | 0x400u32 | 0x200u32
                | 0x200000u32 | 0x1u32 | 0x10u32,
    {
        SymbolType(
            SymbolAttribute::axioms().0 | SymbolAttribute::Config.bit() | SymbolAttribute::Format.bit()
                | SymbolAttribute::Frozen.bit() | SymbolAttribute::Gather.bit()
                | SymbolAttribute::Iter.bit() | SymbolAttribute::Latex.bit()
                | SymbolAttribute::Memo.bit() | SymbolAttribute::Message.bit()
                | SymbolAttribute::Object.bit() | SymbolAttribute::PConst.bit()
                | SymbolAttribute::Prec.bit() | SymbolAttribute::Strat.bit(),
        )
    }

    /// The union of two attributes.
    pub fn bitor(self, rhs: SymbolAttribute) -> (r: SymbolType)
        ensures
            r.0 == attribute_bit(self) | attribute_bit(rhs),
    {
        SymbolType(self.bit() | rhs.bit())
    }
}

/// A set of symbol attributes, one bit each.
#[derive(Copy, Clone, PartialEq, Eq, Debug)]
pub struct SymbolType(pub u32);

impl SymbolType {
    /// The set holding just `a`.
    pub fn from_attribute(a: SymbolAttribute) -> (r: SymbolType)
        ensures
            r.0 == attribute_bit(a),
    {
        SymbolType(a.bit())
    }

    /// Whether `flag` is set.
    pub fn is_set(&self, flag: SymbolAttribute) -> (r: bool)
        ensures
            r == (self.0 & attribute_bit(flag) != 0),
    {
        (self.0 & flag.bit()) != 0
    }

    /// Whether every attribute of `flags` is set.
    pub fn all_set(&self, flags: SymbolType) -> (r: bool)
        ensures
            r == (self.0 & flags.0 == flags.0),
    {
        (self.0 & flags.0) == flags.0
    }

    /// Whether some attribute of `flags` is set.
    pub fn any_set(&self, flags: SymbolType) -> (r: bool)
        ensures
            r == (self.0 & flags.0 != 0),
    {
        (self.0 & flags.0) != 0
    }

    /// Sets every attribute of `flags`.
    pub fn set(&mut self, flags: SymbolType)
        ensures
            final(self).0 == old(self).0 | flags.0,
    {
        self.0 = self.0 | flags.0;
    }

    /// Union with one attribute.
    pub fn bitor_attribute(self, rhs: SymbolAttribute) -> (r: SymbolType)
        ensures
            r.0 == self.0 | attribute_bit(rhs),
    {
        SymbolType(self.0 | rhs.bit())
    }

    /// Union of two sets of attributes.
    pub fn bitor(self, rhs: SymbolType) -> (r: SymbolType)
        ensures
            r.0 == self.0 | rhs.0,
    {
        SymbolType(self.0 | rhs.0)
    }
}

/// After `set(flags)` every attribute of `flags` is set, those set before stay set, and a
/// single attribute's test agrees with a test of the one-attribute set.
pub proof fn lemma_set_then_all_set(before: u32, flags: u32, other: u32)
    ensures
        (before | flags) & flags == flags,
        (before & other == other) ==> ((before | flags) & other == other),
        (before & other != 0) ==> ((before | flags) & other != 0),
        (flags != 0) ==> ((before | flags) & flags != 0),
{
    assert((before | flags) & flags == flags) by (bit_vector);
    assert((before & other == other) ==> ((before | flags) & other == other)) by (bit_vector);
    assert((before & other != 0) ==> ((before | flags) & other != 0)) by (bit_vector);
    assert((flags != 0) ==> ((before | flags) & flags != 0)) by (bit_vector);
}

} // verus!
