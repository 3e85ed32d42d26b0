//! The intermediate representation accepted by the backend: a tree of
//! operations over a byte-addressed cell tape, extended with named
//! functions, direct calls, and calls into foreign native functions.

use vstd::prelude::*;

verus! {

/// A source span, carried by every node for error attribution only.
#[derive(Clone, Copy, PartialEq, Eq, Structural, Debug)]
pub struct Span {
    pub offset: u64,
    pub length: u64,
}

/// One operation of the IR.
pub enum IrOp {
    /// Add `n` to the byte at the data pointer, wrapping modulo 256.
    Add(u64),
    /// Subtract `n` from the byte at the data pointer; only the low
    /// 8 bits of `n` take effect.
    Subtract(u64),
    /// Displace the data pointer right by `n` bytes; `n` must not
    /// exceed `0x7FFF_FFFF`.
    MoveRight(u64),
    /// Displace the data pointer left by `n` bytes; same bound.
    MoveLeft(u64),
    /// Copy the byte at the data pointer onto the auxiliary stack
    /// (pre-increment push).
    StackPush,
    /// Copy the byte at the top of the auxiliary stack back to the
    /// data-pointer cell (post-decrement pop).
    StackPop,
    /// Repeat the body while the byte at the data pointer is non-zero.
    Condition(Vec<IrNode>),
    /// Declare a callable unit; the body is translated in a fresh scope.
    Function(String, Vec<IrNode>),
    /// Direct call to a previously registered function.
    FunctionCall(String),
    /// Call into a foreign native function through the calling-convention
    /// adapter.
    ExternalFunctionCall(String),
    /// Read one byte from the host into the current cell. The front end
    /// produces it; this native backend does not translate it.
    Input,
    /// Write the current cell to the host. The front end produces it;
    /// this native backend does not translate it.
    Output,
}

/// One IR node: an operation tagged with its source span.
pub struct IrNode {
    pub node: IrOp,
    pub span: Span,
}

} // verus!
