//! The wallet document as an ordered list of top-level fields: the fields a
//! document is written as, and a document assembled from fields read in order.
use crate::error::{ConversionError, WalletError};
use crate::fields::{
    classify_field, field_kind, keystore_field_name, keystore_field_name_spec,
    lemma_written_fields_recognised, FieldKind,
};
use crate::text::{chars_of, string_of};
use crate::wallet::{keystore_views, texts, Addresses, ElectrumWalletFile, Keystore, KeystoreView};
use crate::wallet_type::{lemma_wallet_type_round_trip, wallet_type_of, wallet_type_text, WalletType};
use vstd::prelude::*;

verus! {

/// Change addresses, then receiving addresses.
pub type AddressesView = (Seq<Seq<char>>, Seq<Seq<char>>);

/// Address lists, wallet type and keystores.
pub type DocumentView = (AddressesView, WalletType, Seq<KeystoreView>);

impl View for Addresses {
    type V = AddressesView;

    open spec fn view(&self) -> AddressesView {
        (texts(self.change@), texts(self.receiving@))
    }
}

impl View for ElectrumWalletFile {
    type V = DocumentView;

    open spec fn view(&self) -> DocumentView {
        (self.addresses@, self.wallet_type, keystore_views(self.keystores@))
    }
}

/// The value of one top-level field, as far as the document keeps it.
#[derive(Clone, Debug)]
pub enum FieldValue {
    Keystore(Keystore),
    Addresses(Addresses),
    Text(String),
    /// A field of the ignored catalogue, read and dropped.
    Skipped,
}

pub enum FieldView {
    Keystore(KeystoreView),
    Addresses(AddressesView),
    Text(Seq<char>),
    Skipped,
}

impl View for FieldValue {
    type V = FieldView;

    open spec fn view(&self) -> FieldView {
        match self {
            FieldValue::Keystore(k) => FieldView::Keystore(k@),
            FieldValue::Addresses(a) => FieldView::Addresses(a@),
            FieldValue::Text(t) => FieldView::Text(t@),
            FieldValue::Skipped => FieldView::Skipped,
        }
    }
}

pub open spec fn field_views(v: Seq<(String, FieldValue)>) -> Seq<(Seq<char>, FieldView)> {
    v.map_values(|f: (String, FieldValue)| (f.0@, f.1@))
}

pub open spec fn empty_document() -> DocumentView {
    ((Seq::empty(), Seq::empty()), WalletType::Standard, Seq::empty())
}

/// The document after one more field: a keystore is appended, the address
/// lists and the wallet type are replaced, an ignored field changes nothing.
pub open spec fn accept_spec(doc: DocumentView, name: Seq<char>, v: FieldView) -> Result<
    DocumentView,
    WalletError,
> {
    match field_kind(name) {
        FieldKind::Keystore => match v {
            FieldView::Keystore(k) => Ok((doc.0, doc.1, doc.2.push(k))),
            _ => Err(WalletError::MalformedDocument),
        },
        FieldKind::Addresses => match v {
            FieldView::Addresses(a) => Ok((a, doc.1, doc.2)),
            _ => Err(WalletError::MalformedDocument),
        },
        FieldKind::WalletType => match v {
            FieldView::Text(t) => match wallet_type_of(t) {
                Some(w) => Ok((doc.0, w, doc.2)),
                None => Err(WalletError::UnrecognizedWalletType),
            },
            _ => Err(WalletError::MalformedDocument),
        },
        FieldKind::Ignored(_) => match v {
            FieldView::Skipped => Ok(doc),
            _ => Err(WalletError::MalformedDocument),
        },
        FieldKind::Unrecognized => Err(WalletError::UnrecognizedField),
    }
}

/// The document that fields read in order make, from an empty one.
pub open spec fn assemble(fields: Seq<(Seq<char>, FieldView)>) -> Result<DocumentView, WalletError>
    decreases fields.len(),
{
    if fields.len() == 0 {
        Ok(empty_document())
    } else {
        match assemble(fields.drop_last()) {
            Err(e) => Err(e),
            Ok(doc) => accept_spec(doc, fields.last().0, fields.last().1),
        }
    }
}

/// Whether a document can be written: one keystore for a standard wallet,
/// at most 255 for a multisig group.
pub open spec fn writable(d: DocumentView) -> bool {
    match d.1 {
        WalletType::Standard => d.2.len() == 1,
        WalletType::Multisig(_, _) => d.2.len() <= 255,
    }
}

/// The fields a document is written as: addresses, wallet type, then
/// `keystore`, or `x1/`, `x2/`, ... in keystore order.
pub open spec fn written_fields(d: DocumentView) -> Seq<(Seq<char>, FieldView)> {
    seq![
        ("addresses"@, FieldView::Addresses(d.0)),
        ("wallet_type"@, FieldView::Text(wallet_type_text(d.1))),
    ] + match d.1 {
        WalletType::Standard => seq![("keystore"@, FieldView::Keystore(d.2[0]))],
        WalletType::Multisig(_, _) => Seq::new(
            d.2.len(),
            |i: int| (keystore_field_name_spec((i + 1) as nat), FieldView::Keystore(d.2[i])),
        ),
    }
}

proof fn lemma_assemble_head(d: DocumentView)
    ensures
        assemble(written_fields(d).take(2)) == Ok::<DocumentView, WalletError>(
            (d.0, d.1, Seq::empty()),
        ),
{
    let f = written_fields(d).take(2);
    lemma_written_fields_recognised(1);
    lemma_wallet_type_round_trip(d.1);
    assert(f.drop_last().drop_last() =~= Seq::<(Seq<char>, FieldView)>::empty());
    assert(f.drop_last().last() == ("addresses"@, FieldView::Addresses(d.0)));
    assert(f.last() == ("wallet_type"@, FieldView::Text(wallet_type_text(d.1))));
    assert(assemble(f.drop_last().drop_last()) == Ok::<DocumentView, WalletError>(
        empty_document(),
    ));
    let doc1: DocumentView = (d.0, WalletType::Standard, Seq::empty());
    assert(accept_spec(empty_document(), "addresses"@, FieldView::Addresses(d.0)) == Ok::<
        DocumentView,
        WalletError,
    >(doc1));
    assert(assemble(f.drop_last()) == Ok::<DocumentView, WalletError>(doc1));
    assert(accept_spec(doc1, "wallet_type"@, FieldView::Text(wallet_type_text(d.1))) == Ok::<
        DocumentView,
        WalletError,
    >((d.0, d.1, Seq::empty())));
}

proof fn lemma_assemble_keystores(d: DocumentView, n: int)
    requires
        d.1 is Multisig,
        d.2.len() <= 255,
        0 <= n <= d.2.len(),
    ensures
        assemble(written_fields(d).take(2 + n)) == Ok::<DocumentView, WalletError>(
            (d.0, d.1, d.2.take(n)),
        ),
    decreases n,
{
    if n == 0 {
        lemma_assemble_head(d);
        assert(d.2.take(0) =~= Seq::<KeystoreView>::empty());
    } else {
        lemma_assemble_keystores(d, n - 1);
        let f = written_fields(d).take(2 + n);
        assert(f.drop_last() =~= written_fields(d).take(2 + n - 1));
        assert(f.last() == (keystore_field_name_spec(n as nat), FieldView::Keystore(d.2[n - 1])));
        lemma_written_fields_recognised(n as u8);
        assert(d.2.take(n - 1).push(d.2[n - 1]) =~= d.2.take(n));
    }
}

/// Reading back, in order, the fields a document is written as gives the
/// same address lists, wallet type and keystores.
pub proof fn lemma_document_round_trip(d: DocumentView)
    requires
        writable(d),
    ensures
        assemble(written_fields(d)) == Ok::<DocumentView, WalletError>(d),
{
    match d.1 {
        WalletType::Standard => {
            lemma_assemble_head(d);
            lemma_written_fields_recognised(1);
            let f = written_fields(d);
            assert(f.drop_last() =~= f.take(2));
            assert(seq![d.2[0]] =~= d.2);
        },
        WalletType::Multisig(_, _) => {
            lemma_assemble_keystores(d, d.2.len() as int);
            assert(written_fields(d).take(2 + d.2.len() as int) =~= written_fields(d));
            assert(d.2.take(d.2.len() as int) =~= d.2);
        },
    }
}

proof fn lemma_assemble_prefix_error(fields: Seq<(Seq<char>, FieldView)>, n: int)
    requires
        0 <= n <= fields.len(),
        assemble(fields.take(n)) is Err,
    ensures
        assemble(fields) == assemble(fields.take(n)),
    decreases fields.len() - n,
{
    if n < fields.len() {
        assert(fields.take(n + 1).drop_last() =~= fields.take(n));
        lemma_assemble_prefix_error(fields, n + 1);
    } else {
        assert(fields.take(n) =~= fields);
    }
}

fn copy_texts(v: &Vec<String>) -> (r: Vec<String>)
    ensures
        texts(r@) == texts(v@),
{
    let mut r: Vec<String> = Vec::new();
    let mut i: usize = 0;
    while i < v.len()
        invariant
            i <= v@.len(),
            r@.len() == i,
            forall|j: int| 0 <= j < i ==> (#[trigger] r@[j])@ == v@[j]@,
        decreases v@.len() - i,
    {
        r.push(v[i].clone());
        i = i + 1;
    }
    assert(texts(r@) =~= texts(v@));
    r
}

fn copy_addresses(a: &Addresses) -> (r: Addresses)
    ensures
        r@ == a@,
{
    Addresses { change: copy_texts(&a.change), receiving: copy_texts(&a.receiving) }
}

fn copy_keystore(k: &Keystore) -> (r: Keystore)
    ensures
        r@ == k@,
{
    let xprv = match &k.xprv {
        Some(x) => Some(x.clone()),
        None => None,
    };
    Keystore { key_type: k.key_type.clone(), xprv, xpub: k.xpub.clone() }
}

fn text_of(s: &str) -> (r: String)
    ensures
        r@ == s@,
{
    string_of(&chars_of(s))
}

impl ElectrumWalletFile {
    /// An empty document: no addresses, a standard wallet type, no keystores.
    pub fn empty() -> (r: ElectrumWalletFile)
        ensures
            r@ == empty_document(),
    {
        let r = ElectrumWalletFile {
            addresses: Addresses::new(),
            wallet_type: WalletType::Standard,
            keystores: Vec::new(),
        };
        assert(r@.0.0 =~= Seq::<Seq<char>>::empty());
        assert(r@.0.1 =~= Seq::<Seq<char>>::empty());
        assert(r@.2 =~= Seq::<KeystoreView>::empty());
        r
    }

    /// Takes in one top-level field read from a stored document.
    pub fn accept_field(&mut self, name: &str, value: &FieldValue) -> (r: Result<(), ConversionError>)
        ensures
            match r {
                Ok(()) => accept_spec(old(self)@, name@, value@) == Ok::<DocumentView, WalletError>(
                    final(self)@,
                ),
                Err(e) => accept_spec(old(self)@, name@, value@) == Err::<DocumentView, WalletError>(
                    e.kind,
                ) && e.context@ == name@,
            },
    {
        match self.accept_kind(name, value) {
            Ok(()) => Ok(()),
            Err(k) => Err(ConversionError::on(k, &chars_of(name))),
        }
    }

    fn accept_kind(&mut self, name: &str, value: &FieldValue) -> (r: Result<(), WalletError>)
        ensures
            match r {
                Ok(()) => accept_spec(old(self)@, name@, value@) == Ok::<DocumentView, WalletError>(
                    final(self)@,
                ),
                Err(e) => accept_spec(old(self)@, name@, value@) == Err::<DocumentView, WalletError>(
                    e,
                ),
            },
    {
        match classify_field(name) {
            FieldKind::Keystore => match value {
                FieldValue::Keystore(k) => {
                    let ghost before = self.keystores@;
                    self.keystores.push(copy_keystore(k));
                    assert(keystore_views(self.keystores@) =~= keystore_views(before).push(k@));
                    Ok(())
                },
                _ => Err(WalletError::MalformedDocument),
            },
            FieldKind::Addresses => match value {
                FieldValue::Addresses(a) => {
                    self.addresses = copy_addresses(a);
                    Ok(())
                },
                _ => Err(WalletError::MalformedDocument),
            },
            FieldKind::WalletType => match value {
                FieldValue::Text(t) => match WalletType::parse(t.as_str()) {
                    Ok(w) => {
                        self.wallet_type = w;
                        Ok(())
                    },
                    Err(e) => Err(e.kind),
                },
                _ => Err(WalletError::MalformedDocument),
            },
            FieldKind::Ignored(_) => match value {
                FieldValue::Skipped => Ok(()),
                _ => Err(WalletError::MalformedDocument),
            },
            FieldKind::Unrecognized => Err(WalletError::UnrecognizedField),
        }
    }

    /// Assembles a document from its top-level fields in the order they were read.
    /// On failure the context is the name of the field that failed.
    pub fn from_fields(fields: &Vec<(String, FieldValue)>) -> (r: Result<ElectrumWalletFile, ConversionError>)
        ensures
            match r {
                Ok(d) => assemble(field_views(fields@)) == Ok::<DocumentView, WalletError>(d@),
                Err(e) => assemble(field_views(fields@)) == Err::<DocumentView, WalletError>(e.kind)
                    && exists|i: int| 0 <= i < fields@.len() && e.context@ == (#[trigger] fields@[i]).0@,
            },
    {
        let ghost fv = field_views(fields@);
        let mut doc = ElectrumWalletFile::empty();
        let mut i: usize = 0;
        assert(fv.take(0) =~= Seq::<(Seq<char>, FieldView)>::empty());
        while i < fields.len()
            invariant
                i <= fields@.len(),
                fv == field_views(fields@),
                assemble(fv.take(i as int)) == Ok::<DocumentView, WalletError>(doc@),
            decreases fields@.len() - i,
        {
            let ghost prefix = fv.take(i + 1);
            assert(prefix.drop_last() =~= fv.take(i as int));
            assert(prefix.last() == (fields@[i as int].0@, fields@[i as int].1@));
            match doc.accept_field(fields[i].0.as_str(), &fields[i].1) {
                Ok(()) => {},
                Err(e) => {
                    proof {
                        lemma_assemble_prefix_error(fv, i + 1);
                        assert(e.context@ == fields@[i as int].0@);
                    }
                    return Err(e);
                },
            }
            i = i + 1;
        }
        assert(fv.take(i as int) =~= fv);
        Ok(doc)
    }

    /// The top-level fields this document is written as, in order.
    pub fn written_fields(&self) -> (r: Result<Vec<(String, FieldValue)>, WalletError>)
        ensures
            match r {
                Ok(v) => writable(self@) && field_views(v@) == written_fields(self@),
                Err(e) => !writable(self@) && e == WalletError::MalformedDocument,
            },
    {
        let ghost target = written_fields(self@);
        let mut v: Vec<(String, FieldValue)> = Vec::new();
        v.push((text_of("addresses"), FieldValue::Addresses(copy_addresses(&self.addresses))));
        v.push((text_of("wallet_type"), FieldValue::Text(self.wallet_type.to_text())));
        assert(field_views(v@) =~= target.take(2));
        match self.wallet_type {
            WalletType::Standard => {
                if self.keystores.len() != 1 {
                    return Err(WalletError::MalformedDocument);
                }
                v.push((text_of("keystore"), FieldValue::Keystore(copy_keystore(&self.keystores[0]))));
                assert(field_views(v@) =~= target);
            },
            WalletType::Multisig(m, n) => {
                if self.keystores.len() > 255 {
                    return Err(WalletError::MalformedDocument);
                }
                let mut i: usize = 0;
                while i < self.keystores.len()
                    invariant
                        i <= self.keystores@.len() <= 255,
                        self.wallet_type == WalletType::Multisig(m, n),
                        target == written_fields(self@),
                        field_views(v@) == target.take(2 + i),
                    decreases self.keystores@.len() - i,
                {
                    let ghost before = field_views(v@);
                    let position: u8 = (i + 1) as u8;
                    v.push(
                        (
                            keystore_field_name(position),
                            FieldValue::Keystore(copy_keystore(&self.keystores[i])),
                        ),
                    );
                    assert(field_views(v@) =~= target.take(2 + i + 1)) by {
                        assert(field_views(v@) =~= before.push(target[2 + i]));
                    }
                    i = i + 1;
                }
                assert(target.take(2 + i) =~= target);
            },
        }
        Ok(v)
    }
}

/// A document assembled from fields in written order is written back as
/// the same fields.
pub proof fn lemma_fields_round_trip(fields: Seq<(Seq<char>, FieldView)>, source: DocumentView)
    requires
        writable(source),
        fields == written_fields(source),
    ensures
        assemble(fields) is Ok,
        writable(assemble(fields)->Ok_0),
        written_fields(assemble(fields)->Ok_0) == fields,
{
    lemma_document_round_trip(source);
}

} // verus!
