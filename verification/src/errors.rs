use vstd::prelude::*;

verus! {

/// The reasons a source program is rejected, shared by the tokenizer and the
/// parser.  A run stops at the first error; there is no recovery.
#[derive(Clone, Copy, Debug, PartialEq, Eq, Structural)]
pub enum SyntaxError {
    /// The tokenizer met a byte that starts no token.
    UnrecognizedCharacter,
    /// No grammar production matches the token at the cursor.
    UnexpectedToken,
    /// A name was referenced that is not in scope, or a declared name was
    /// used where a value of another category is required.
    UndeclaredVariable,
    /// A `var` target or a `for` index is already in scope.
    RedeclaredVariable,
    /// An operand's value category disagrees with the requirement of the
    /// enclosing operator, or nested operators yield conflicting categories.
    TypeMismatch,
    /// A `(` whose subexpression is not followed by `)`.
    UnterminatedBracket,
}

} // verus!
