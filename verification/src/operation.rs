//! What the user can have done.
use vstd::prelude::*;

verus! {

/// An operation of `ansible-vault`.
#[derive(Clone, Copy, Debug, PartialEq, Eq, Structural)]
pub enum Operation {
    EncryptFile,
    DecryptFile,
    EncryptValue,
    DecryptValue,
}

/// An operation as a code action carries it.
#[derive(Clone, Copy, Debug, PartialEq, Eq, Structural)]
pub enum ActionOperation {
    EncryptFile,
    DecryptFile,
    EncryptValue,
    DecryptValue,
}

/// The operation that a code action stands for.
pub open spec fn operation_of(action: ActionOperation) -> Operation {
    match action {
        ActionOperation::EncryptFile => Operation::EncryptFile,
        ActionOperation::DecryptFile => Operation::DecryptFile,
        ActionOperation::EncryptValue => Operation::EncryptValue,
        ActionOperation::DecryptValue => Operation::DecryptValue,
    }
}

impl From<ActionOperation> for Operation {
    fn from(value: ActionOperation) -> (r: Operation) {
        match value {
            ActionOperation::EncryptFile => Operation::EncryptFile,
            ActionOperation::DecryptFile => Operation::DecryptFile,
            ActionOperation::EncryptValue => Operation::EncryptValue,
            ActionOperation::DecryptValue => Operation::DecryptValue,
        }
    }
}

impl vstd::std_specs::convert::FromSpecImpl<ActionOperation> for Operation {
    open spec fn obeys_from_spec() -> bool {
        true
    }

    open spec fn from_spec(value: ActionOperation) -> Operation {
        operation_of(value)
    }
}

impl Operation {
    /// The `ansible-vault` command for the operation.
    pub open spec fn subcommand_text(self) -> Seq<char> {
        match self {
            Operation::EncryptFile => "encrypt"@,
            Operation::DecryptFile => "decrypt"@,
            Operation::EncryptValue => "encrypt_string"@,
            Operation::DecryptValue => "view"@,
        }
    }

    /// Whether the operation works on a whole file.
    pub open spec fn on_file(self) -> bool {
        self == Operation::EncryptFile || self == Operation::DecryptFile
    }

    pub fn subcommand(self) -> (r: &'static str)
        ensures
            r@ == self.subcommand_text(),
    {
        match self {
            Operation::EncryptFile => "encrypt",
            Operation::DecryptFile => "decrypt",
            Operation::EncryptValue => "encrypt_string",
            Operation::DecryptValue => "view",
        }
    }

    pub fn is_on_file(self) -> (r: bool)
        ensures
            r == self.on_file(),
    {
        match self {
            Operation::EncryptFile => true,
            Operation::DecryptFile => true,
            Operation::EncryptValue => false,
            Operation::DecryptValue => false,
        }
    }
}

} // verus!
