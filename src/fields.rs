//! Recognition of the top-level fields of a wallet document, and the names
//! under which keystores are written.
use crate::text::{chars_of, push_all, string_of};
use crate::decimal::{all_dec_digits, dec_digit_value, decimal, decimal_exec, is_dec_digit, lemma_decimal_digits};
use vstd::prelude::*;

verus! {

/// The shape of a field that is read only to be skipped.
#[derive(Clone, Copy, Debug, PartialEq, Eq, Structural)]
pub enum Shape {
    Bool,
    Text,
    Number,
    /// A map from text to text.
    TextMap,
    /// A list of texts.
    List,
    /// A map from address to a list of (transaction id, height) pairs.
    AddressHistory,
    /// Four small integers.
    WindowPosition,
}

/// What a top-level document field holds.
#[derive(Clone, Copy, Debug, PartialEq, Eq, Structural)]
pub enum FieldKind {
    Keystore,
    Addresses,
    WalletType,
    Ignored(Shape),
    Unrecognized,
}

/// `x<digits>/`: the field of one cosigner of a multisig group.
pub open spec fn is_numbered_keystore(name: Seq<char>) -> bool {
    &&& name.len() >= 3
    &&& name[0] == 'x'
    &&& name.last() == '/'
    &&& all_dec_digits(name.subrange(1, name.len() - 1))
}

/// The catalogue of sections that are recognised and skipped.
pub open spec fn ignored_shape(name: Seq<char>) -> Option<Shape> {
    if name == "addr_history"@ {
        Some(Shape::AddressHistory)
    } else if name == "channel_backups"@ {
        Some(Shape::TextMap)
    } else if name == "channels"@ {
        Some(Shape::TextMap)
    } else if name == "fiat_value"@ {
        Some(Shape::TextMap)
    } else if name == "invoices"@ {
        Some(Shape::TextMap)
    } else if name == "labels"@ {
        Some(Shape::TextMap)
    } else if name == "lightning_payments"@ {
        Some(Shape::TextMap)
    } else if name == "lightning_preimages"@ {
        Some(Shape::TextMap)
    } else if name == "lightning_privkey2"@ {
        Some(Shape::Text)
    } else if name == "payment_requests"@ {
        Some(Shape::TextMap)
    } else if name == "prevouts_by_scripthash"@ {
        Some(Shape::TextMap)
    } else if name == "qt-console-history"@ {
        Some(Shape::List)
    } else if name == "seed_type"@ {
        Some(Shape::Text)
    } else if name == "seed_version"@ {
        Some(Shape::Number)
    } else if name == "spent_outpoints"@ {
        Some(Shape::TextMap)
    } else if name == "stored_height"@ {
        Some(Shape::Number)
    } else if name == "submarine_swaps"@ {
        Some(Shape::TextMap)
    } else if name == "transactions"@ {
        Some(Shape::TextMap)
    } else if name == "tx_fees"@ {
        Some(Shape::TextMap)
    } else if name == "txi"@ {
        Some(Shape::TextMap)
    } else if name == "txo"@ {
        Some(Shape::TextMap)
    } else if name == "use_change"@ {
        Some(Shape::Bool)
    } else if name == "use_encryption"@ {
        Some(Shape::Bool)
    } else if name == "winpos-qt"@ {
        Some(Shape::WindowPosition)
    } else if name == "verified_tx3"@ {
        Some(Shape::TextMap)
    } else {
        None
    }
}

pub open spec fn field_kind(name: Seq<char>) -> FieldKind {
    if name == "keystore"@ || is_numbered_keystore(name) {
        FieldKind::Keystore
    } else if name == "addresses"@ {
        FieldKind::Addresses
    } else if name == "wallet_type"@ {
        FieldKind::WalletType
    } else {
        match ignored_shape(name) {
            Some(s) => FieldKind::Ignored(s),
            None => FieldKind::Unrecognized,
        }
    }
}

/// The field name of the cosigner at 1-based `position`.
pub open spec fn keystore_field_name_spec(position: nat) -> Seq<char> {
    seq!['x'] + decimal(position) + seq!['/']
}

fn text_is(name: &Vec<char>, lit: &str) -> (r: bool)
    ensures
        r == (name@ == lit@),
{
    let l = chars_of(lit);
    if l.len() != name.len() {
        return false;
    }
    let mut i: usize = 0;
    while i < l.len()
        invariant
            i <= l@.len(),
            l@.len() == name@.len(),
            l@ == lit@,
            forall|k: int| 0 <= k < i ==> name@[k] == l@[k],
        decreases l@.len() - i,
    {
        if name[i] != l[i] {
            return false;
        }
        i = i + 1;
    }
    assert(name@ =~= l@);
    true
}

fn numbered_keystore(name: &Vec<char>) -> (r: bool)
    ensures
        r == is_numbered_keystore(name@),
{
    let n = name.len();
    if n < 3 || name[0] != 'x' || name[n - 1] != '/' {
        return false;
    }
    let mut i: usize = 1;
    while i < n - 1
        invariant
            1 <= i <= n - 1,
            n == name@.len(),
            n >= 3,
            forall|k: int| 1 <= k < i ==> is_dec_digit(#[trigger] name@[k]),
        decreases n - 1 - i,
    {
        if dec_digit_value(name[i]).is_none() {
            assert(name@.subrange(1, n - 1)[i - 1] == name@[i as int]);
            return false;
        }
        i = i + 1;
    }
    assert forall|k: int| 0 <= k < n - 2 implies is_dec_digit(
        #[trigger] name@.subrange(1, n - 1)[k],
    ) by {
        assert(name@.subrange(1, n - 1)[k] == name@[k + 1]);
    }
    true
}

fn ignored(name: &Vec<char>) -> (r: Option<Shape>)
    ensures
        r == ignored_shape(name@),
{
    if text_is(name, "addr_history") {
        Some(Shape::AddressHistory)
    } else if text_is(name, "channel_backups") {
        Some(Shape::TextMap)
    } else if text_is(name, "channels") {
        Some(Shape::TextMap)
    } else if text_is(name, "fiat_value") {
        Some(Shape::TextMap)
    } else if text_is(name, "invoices") {
        Some(Shape::TextMap)
    } else if text_is(name, "labels") {
        Some(Shape::TextMap)
    } else if text_is(name, "lightning_payments") {
        Some(Shape::TextMap)
    } else if text_is(name, "lightning_preimages") {
        Some(Shape::TextMap)
    } else if text_is(name, "lightning_privkey2") {
        Some(Shape::Text)
    } else if text_is(name, "payment_requests") {
        Some(Shape::TextMap)
    } else if text_is(name, "prevouts_by_scripthash") {
        Some(Shape::TextMap)
    } else if text_is(name, "qt-console-history") {
        Some(Shape::List)
    } else if text_is(name, "seed_type") {
        Some(Shape::Text)
    } else if text_is(name, "seed_version") {
        Some(Shape::Number)
    } else if text_is(name, "spent_outpoints") {
        Some(Shape::TextMap)
    } else if text_is(name, "stored_height") {
        Some(Shape::Number)
    } else if text_is(name, "submarine_swaps") {
        Some(Shape::TextMap)
    } else if text_is(name, "transactions") {
        Some(Shape::TextMap)
    } else if text_is(name, "tx_fees") {
        Some(Shape::TextMap)
    } else if text_is(name, "txi") {
        Some(Shape::TextMap)
    } else if text_is(name, "txo") {
        Some(Shape::TextMap)
    } else if text_is(name, "use_change") {
        Some(Shape::Bool)
    } else if text_is(name, "use_encryption") {
        Some(Shape::Bool)
    } else if text_is(name, "winpos-qt") {
        Some(Shape::WindowPosition)
    } else if text_is(name, "verified_tx3") {
        Some(Shape::TextMap)
    } else {
        None
    }
}

/// Classifies a top-level field name of a wallet document.
pub fn classify_field(name: &str) -> (r: FieldKind)
    ensures
        r == field_kind(name@),
{
    let n = chars_of(name);
    if text_is(&n, "keystore") || numbered_keystore(&n) {
        FieldKind::Keystore
    } else if text_is(&n, "addresses") {
        FieldKind::Addresses
    } else if text_is(&n, "wallet_type") {
        FieldKind::WalletType
    } else {
        match ignored(&n) {
            Some(s) => FieldKind::Ignored(s),
            None => FieldKind::Unrecognized,
        }
    }
}

/// The field name under which the cosigner at 1-based `position` is written.
pub fn keystore_field_name(position: u8) -> (r: String)
    ensures
        r@ == keystore_field_name_spec(position as nat),
{
    let mut t = vec!['x'];
    push_all(&mut t, &decimal_exec(position));
    t.push('/');
    assert(t@ =~= keystore_field_name_spec(position as nat));
    string_of(&t)
}

/// Every field that writing a document produces is read back as what it
/// was written from: `keystore` and each numbered cosigner field as a
/// keystore, `addresses` as the address lists, `wallet_type` as the wallet
/// type.
pub proof fn lemma_written_fields_recognised(position: u8)
    requires
        position >= 1,
    ensures
        field_kind(keystore_field_name_spec(position as nat)) == FieldKind::Keystore,
        field_kind("keystore"@) == FieldKind::Keystore,
        field_kind("addresses"@) == FieldKind::Addresses,
        field_kind("wallet_type"@) == FieldKind::WalletType,
{
    let name = keystore_field_name_spec(position as nat);
    let d = decimal(position as nat);
    lemma_decimal_digits(position as nat);
    assert(name.subrange(1, name.len() - 1) =~= d);
    reveal_strlit("keystore");
    reveal_strlit("addresses");
    reveal_strlit("wallet_type");
    assert("addresses"@ != "keystore"@) by {
        assert("addresses"@[0] != "keystore"@[0]);
    }
    assert("wallet_type"@ != "keystore"@) by {
        assert("wallet_type"@[0] != "keystore"@[0]);
    }
    assert("wallet_type"@ != "addresses"@) by {
        assert("wallet_type"@[0] != "addresses"@[0]);
    }
}

} // verus!
