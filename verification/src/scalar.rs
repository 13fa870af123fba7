//! Scalar locations of a shader program.
//!
//! A shader program reads and writes registers of up to four components. The
//! dependency analysis works on single components: a scalar location is one
//! component of one register.

use crate::order::Ranked;
use vstd::prelude::*;

verus! {

/// The register file that a register belongs to.
#[derive(Debug, Clone, Copy, PartialEq, Eq, Structural, Hash)]
pub enum RegisterBank {
    /// Temporary registers, written `r`.
    General,
    /// Constant-buffer registers, written `c`.
    Constant,
    /// Input ports of the stage, written `v`.
    Input,
    /// Output ports of the stage, written `o`.
    Output,
}

/// How the value of a register is shown. The analysis never looks at it,
/// other than to tell one register from another.
#[derive(Debug, Clone, Copy, PartialEq, Eq, Structural, Hash)]
pub enum ValueKind {
    Untyped,
    Float,
    SignedInt,
    UnsignedInt,
}

/// One of the four components of a register.
#[derive(Debug, Clone, Copy, PartialEq, Eq, Structural, Hash)]
pub enum Component {
    X,
    Y,
    Z,
    W,
}

/// A register: its bank, its number in the bank, and how its value is shown.
#[derive(Debug, Clone, Copy, PartialEq, Eq, Structural, Hash)]
pub struct Register {
    pub bank: RegisterBank,
    pub index: u32,
    pub kind: ValueKind,
}

/// One component of one register.
#[derive(Debug, Clone, Copy, PartialEq, Eq, Structural, Hash)]
pub struct ScalarLocation {
    pub reg: Register,
    pub comp: Component,
}

/// What a scalar value can depend on: a scalar location or a literal constant.
#[derive(Debug, Clone, Copy, PartialEq, Eq, Structural, Hash)]
pub enum Scalar {
    Location(ScalarLocation),
    Literal(u64),
}

impl RegisterBank {
    /// The place of the bank among the banks.
    pub open spec fn ordinal(self) -> int {
        match self {
            RegisterBank::General => 0,
            RegisterBank::Constant => 1,
            RegisterBank::Input => 2,
            RegisterBank::Output => 3,
        }
    }

    /// The letter that names the bank.
    pub open spec fn letter(self) -> Seq<char> {
        match self {
            RegisterBank::General => "r"@,
            RegisterBank::Constant => "c"@,
            RegisterBank::Input => "v"@,
            RegisterBank::Output => "o"@,
        }
    }

    pub fn to_str(self) -> (s: &'static str)
        ensures
            s@ == self.letter(),
    {
        match self {
            RegisterBank::General => "r",
            RegisterBank::Constant => "c",
            RegisterBank::Input => "v",
            RegisterBank::Output => "o",
        }
    }

    fn position(self) -> (n: u64)
        ensures
            n == self.ordinal(),
    {
        match self {
            RegisterBank::General => 0,
            RegisterBank::Constant => 1,
            RegisterBank::Input => 2,
            RegisterBank::Output => 3,
        }
    }
}

impl ValueKind {
    /// The place of the kind among the kinds.
    pub open spec fn ordinal(self) -> int {
        match self {
            ValueKind::Untyped => 0,
            ValueKind::Float => 1,
            ValueKind::SignedInt => 2,
            ValueKind::UnsignedInt => 3,
        }
    }

    /// What follows the name of a value of this kind; nothing where the kind
    /// is not known.
    pub open spec fn suffix(self) -> Seq<char> {
        match self {
            ValueKind::Untyped => ""@,
            ValueKind::Float => ":float"@,
            ValueKind::SignedInt => ":int"@,
            ValueKind::UnsignedInt => ":uint"@,
        }
    }

    pub fn to_str(self) -> (s: &'static str)
        ensures
            s@ == self.suffix(),
    {
        match self {
            ValueKind::Untyped => "",
            ValueKind::Float => ":float",
            ValueKind::SignedInt => ":int",
            ValueKind::UnsignedInt => ":uint",
        }
    }

    fn position(self) -> (n: u64)
        ensures
            n == self.ordinal(),
    {
        match self {
            ValueKind::Untyped => 0,
            ValueKind::Float => 1,
            ValueKind::SignedInt => 2,
            ValueKind::UnsignedInt => 3,
        }
    }
}

impl Component {
    /// The place of the component in its register.
    pub open spec fn ordinal(self) -> int {
        match self {
            Component::X => 0,
            Component::Y => 1,
            Component::Z => 2,
            Component::W => 3,
        }
    }

    /// The letter that names the component.
    pub open spec fn letter(self) -> Seq<char> {
        match self {
            Component::X => "x"@,
            Component::Y => "y"@,
            Component::Z => "z"@,
            Component::W => "w"@,
        }
    }

    pub fn to_str(self) -> (s: &'static str)
        ensures
            s@ == self.letter(),
    {
        match self {
            Component::X => "x",
            Component::Y => "y",
            Component::Z => "z",
            Component::W => "w",
        }
    }

    fn position(self) -> (n: u64)
        ensures
            n == self.ordinal(),
    {
        match self {
            Component::X => 0,
            Component::Y => 1,
            Component::Z => 2,
            Component::W => 3,
        }
    }
}

impl Register {
    /// `self` comes before `other`: by bank, then by number, then by kind.
    pub open spec fn before(self, other: Register) -> bool {
        ||| self.bank.ordinal() < other.bank.ordinal()
        ||| self.bank == other.bank && self.index < other.index
        ||| self.bank == other.bank && self.index == other.index && self.kind.ordinal()
            < other.kind.ordinal()
    }
}

impl ScalarLocation {
    /// Whether the location is an output of the shader stage.
    pub open spec fn spec_is_output(self) -> bool {
        self.reg.bank == RegisterBank::Output
    }

    /// Whether the location is an output of the shader stage.
    #[verifier::when_used_as_spec(spec_is_output)]
    pub fn is_output(self) -> (b: bool)
        ensures
            b == self.spec_is_output(),
    {
        self.reg.bank == RegisterBank::Output
    }

    /// `self` comes before `other` in the canonical order: by register, then
    /// by component.
    pub open spec fn before(self, other: ScalarLocation) -> bool {
        ||| self.reg.before(other.reg)
        ||| self.reg == other.reg && self.comp.ordinal() < other.comp.ordinal()
    }

    /// The rank of the location as a number that can be computed.
    pub fn sort_key(&self) -> (k: u64)
        ensures
            k == self.rank(),
    {
        let bank: u64 = self.reg.bank.position();
        let index: u64 = self.reg.index as u64;
        let kind: u64 = self.reg.kind.position();
        let comp: u64 = self.comp.position();
        ((bank * 0x1_0000_0000 + index) * 4 + kind) * 4 + comp
    }

    /// The rank orders locations as `before` does.
    pub proof fn lemma_rank_is_canonical(a: ScalarLocation, b: ScalarLocation)
        ensures
            a.rank() < b.rank() <==> a.before(b),
            a.rank() == b.rank() <==> a == b,
    {
    }
}

impl Ranked for ScalarLocation {
    open spec fn rank(&self) -> int {
        ((self.reg.bank.ordinal() * 0x1_0000_0000 + self.reg.index) * 4 + self.reg.kind.ordinal())
            * 4 + self.comp.ordinal()
    }

    proof fn lemma_rank_injective(a: Self, b: Self) {
    }

    fn precedes(&self, other: &Self) -> (b: bool) {
        self.sort_key() < other.sort_key()
    }
}

impl Ranked for Scalar {
    /// Locations come before literals; locations in their own order,
    /// literals by their value.
    open spec fn rank(&self) -> int {
        match *self {
            Scalar::Location(l) => l.rank(),
            Scalar::Literal(v) => 0x40_0000_0000 + v,
        }
    }

    proof fn lemma_rank_injective(a: Self, b: Self) {
    }

    fn precedes(&self, other: &Self) -> (b: bool) {
        match (*self, *other) {
            (Scalar::Location(a), Scalar::Location(b)) => a.precedes(&b),
            (Scalar::Location(_), Scalar::Literal(_)) => true,
            (Scalar::Literal(_), Scalar::Location(_)) => false,
            (Scalar::Literal(a), Scalar::Literal(b)) => a < b,
        }
    }
}

impl Scalar {
    /// Whether the value is a literal constant.
    pub open spec fn spec_is_literal(self) -> bool {
        self is Literal
    }

    /// Whether the value is a literal constant.
    #[verifier::when_used_as_spec(spec_is_literal)]
    pub fn is_literal(self) -> (b: bool)
        ensures
            b == self.spec_is_literal(),
    {
        match self {
            Scalar::Literal(_) => true,
            Scalar::Location(_) => false,
        }
    }
}

} // verus!
