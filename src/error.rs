//! Errors of the conversions.
use vstd::prelude::*;

verus! {

/// Why a conversion failed. Every conversion is all-or-nothing.
#[derive(Clone, Copy, Debug, PartialEq, Eq, Structural)]
pub enum WalletError {
    /// The document could not be read, or its structure is wrong.
    MalformedDocument,
    /// A document field is neither recognised nor in the ignored catalogue.
    UnrecognizedField,
    /// The wallet type text is neither `standard` nor `<m>of<n>`.
    UnrecognizedWalletType,
    /// The descriptor text matches no single-signature or multisig form.
    UnrecognizedDescriptor,
    /// A multisig descriptor with fewer than two keys.
    InsufficientSigners,
    /// A key text that is no valid extended key, or a keystore without a usable key.
    InvalidExtendedKey,
    /// A script kind with no form in the requested rendering.
    UnknownScriptKind,
}

/// A failed conversion: what went wrong, and the text it went wrong on (the
/// descriptor, the key, the wallet type text or the field name).
#[derive(Clone, Debug, PartialEq, Eq)]
pub struct ConversionError {
    pub kind: WalletError,
    pub context: String,
}

impl View for ConversionError {
    type V = (WalletError, Seq<char>);

    open spec fn view(&self) -> (WalletError, Seq<char>) {
        (self.kind, self.context@)
    }
}

impl ConversionError {
    pub(crate) fn on(kind: WalletError, context: &Vec<char>) -> (r: ConversionError)
        ensures
            r.kind == kind,
            r.context@ == context@,
    {
        ConversionError { kind, context: crate::text::string_of(context) }
    }
}

} // verus!
