//! Universal gate set, matching the minimal gate set defined by
//! OpenQASM 3's `stdgates.inc`.

use vstd::prelude::*;

verus! {

/// The kind of a quantum gate, independent of which qubits it acts on or
/// which framework it originated from.
///
/// Each variant documents how many qubits it acts on and how many
/// numeric parameters it expects, via [`GateKind::num_qubits`] and
/// [`GateKind::num_params`].
#[derive(Debug, Clone, Copy, PartialEq, Eq, Hash, Structural)]
pub enum GateKind {
    Id,
    X,
    Y,
    Z,
    H,
    S,
    Sdg,
    T,
    Tdg,
    Sx,
    Sxdg,
    Rx,
    Ry,
    Rz,
    Phase,
    /// General single-qubit unitary `U(theta, phi, lambda)`.
    U,
    Cx,
    Cy,
    Cz,
    Ch,
    Csx,
    Crx,
    Cry,
    Crz,
    Cp,
    /// Controlled general single-qubit unitary `CU(theta, phi, lambda, gamma)`.
    Cu,
    Swap,
    Ccx,
    Cswap,
}

impl GateKind {
    /// Number of qubits a gate of this kind acts on.
    pub open spec fn arity(self) -> nat {
        match self {
            GateKind::Id | GateKind::X | GateKind::Y | GateKind::Z | GateKind::H | GateKind::S
            | GateKind::Sdg | GateKind::T | GateKind::Tdg | GateKind::Sx | GateKind::Sxdg
            | GateKind::Rx | GateKind::Ry | GateKind::Rz | GateKind::Phase | GateKind::U => 1,
            GateKind::Cx | GateKind::Cy | GateKind::Cz | GateKind::Ch | GateKind::Csx
            | GateKind::Crx | GateKind::Cry | GateKind::Crz | GateKind::Cp | GateKind::Cu
            | GateKind::Swap => 2,
            GateKind::Ccx | GateKind::Cswap => 3,
        }
    }

    /// Number of numeric parameters a gate of this kind expects.
    pub open spec fn param_arity(self) -> nat {
        match self {
            GateKind::Rx | GateKind::Ry | GateKind::Rz | GateKind::Phase | GateKind::Crx
            | GateKind::Cry | GateKind::Crz | GateKind::Cp => 1,
            GateKind::U => 3,
            GateKind::Cu => 4,
            _ => 0,
        }
    }

    /// Canonical OpenQASM 3 `stdgates.inc` name of this kind.
    pub open spec fn canonical_name(self) -> Seq<char> {
        match self {
            GateKind::Id => "id"@,
            GateKind::X => "x"@,
            GateKind::Y => "y"@,
            GateKind::Z => "z"@,
            GateKind::H => "h"@,
            GateKind::S => "s"@,
            GateKind::Sdg => "sdg"@,
            GateKind::T => "t"@,
            GateKind::Tdg => "tdg"@,
            GateKind::Sx => "sx"@,
            GateKind::Sxdg => "sxdg"@,
            GateKind::Rx => "rx"@,
            GateKind::Ry => "ry"@,
            GateKind::Rz => "rz"@,
            GateKind::Phase => "p"@,
            GateKind::U => "u"@,
            GateKind::Cx => "cx"@,
            GateKind::Cy => "cy"@,
            GateKind::Cz => "cz"@,
            GateKind::Ch => "ch"@,
            GateKind::Csx => "csx"@,
            GateKind::Crx => "crx"@,
            GateKind::Cry => "cry"@,
            GateKind::Crz => "crz"@,
            GateKind::Cp => "cp"@,
            GateKind::Cu => "cu"@,
            GateKind::Swap => "swap"@,
            GateKind::Ccx => "ccx"@,
            GateKind::Cswap => "cswap"@,
        }
    }

    /// The diagonal rotation family whose sign convention differs between
    /// frameworks: `Rz`, `Phase`, `Crz` and `Cp`.
    pub open spec fn is_rotation_family(self) -> bool {
        self == GateKind::Rz || self == GateKind::Phase || self == GateKind::Crz
            || self == GateKind::Cp
    }

    /// Number of qubits this gate kind acts on.
    pub fn num_qubits(&self) -> (n: usize)
        ensures
            n == self.arity(),
    {
        match self {
            GateKind::Id | GateKind::X | GateKind::Y | GateKind::Z | GateKind::H | GateKind::S
            | GateKind::Sdg | GateKind::T | GateKind::Tdg | GateKind::Sx | GateKind::Sxdg
            | GateKind::Rx | GateKind::Ry | GateKind::Rz | GateKind::Phase | GateKind::U => 1,
            GateKind::Cx | GateKind::Cy | GateKind::Cz | GateKind::Ch | GateKind::Csx
            | GateKind::Crx | GateKind::Cry | GateKind::Crz | GateKind::Cp | GateKind::Cu
            | GateKind::Swap => 2,
            GateKind::Ccx | GateKind::Cswap => 3,
        }
    }

    /// Number of numeric parameters this gate kind expects.
    pub fn num_params(&self) -> (n: usize)
        ensures
            n == self.param_arity(),
    {
        match self {
            GateKind::Rx | GateKind::Ry | GateKind::Rz | GateKind::Phase | GateKind::Crx
            | GateKind::Cry | GateKind::Crz | GateKind::Cp => 1,
            GateKind::U => 3,
            GateKind::Cu => 4,
            _ => 0,
        }
    }

    /// Canonical OpenQASM 3 `stdgates.inc` name for this gate kind.
    pub fn qasm_name(&self) -> (name: &'static str)
        ensures
            name@ == self.canonical_name(),
    {
        match self {
            GateKind::Id => "id",
            GateKind::X => "x",
            GateKind::Y => "y",
            GateKind::Z => "z",
            GateKind::H => "h",
            GateKind::S => "s",
            GateKind::Sdg => "sdg",
            GateKind::T => "t",
            GateKind::Tdg => "tdg",
            GateKind::Sx => "sx",
            GateKind::Sxdg => "sxdg",
            GateKind::Rx => "rx",
            GateKind::Ry => "ry",
            GateKind::Rz => "rz",
            GateKind::Phase => "p",
            GateKind::U => "u",
            GateKind::Cx => "cx",
            GateKind::Cy => "cy",
            GateKind::Cz => "cz",
            GateKind::Ch => "ch",
            GateKind::Csx => "csx",
            GateKind::Crx => "crx",
            GateKind::Cry => "cry",
            GateKind::Crz => "crz",
            GateKind::Cp => "cp",
            GateKind::Cu => "cu",
            GateKind::Swap => "swap",
            GateKind::Ccx => "ccx",
            GateKind::Cswap => "cswap",
        }
    }
}

} // verus!
