//! The wallet document: its keystores, its wallet type, and the conversions
//! to and from descriptor text.
use crate::codec::{
    encode_spec, CodecError,
    base58check_data, base58check_decode, base58check_encode, base58check_text, decode_chars,
    decode_spec, derive_public, check_public, lemma_payload_round_trip, public_of_private,
    public_parses, standard_class, standard_class_of, tag_data, tag_payload, version_of, KEY_LEN,
    ScriptKind,
};
use crate::descriptor::{
    lemma_multi_unique, lemma_single_unique, multi_open, single_open,
    all_tokens, is_key_token, multi_descriptor, multisig_kind, parse_multi, parse_single,
    render_multi, render_single, single_descriptor, views,
};
use crate::error::{ConversionError, WalletError};
use crate::text::{chars_of, has_at, string_of};
use crate::wallet_type::WalletType;
use vstd::prelude::*;

verus! {

/// What one keystore holds: its type tag, the tagged private key if any, and
/// the tagged public key.
pub type KeystoreView = (Seq<char>, Option<Seq<char>>, Seq<char>);

pub open spec fn opt_text(o: Option<String>) -> Option<Seq<char>> {
    match o {
        Some(s) => Some(s@),
        None => None,
    }
}

pub open spec fn texts(v: Seq<String>) -> Seq<Seq<char>> {
    v.map_values(|s: String| s@)
}

/// The stored key material of one signer.
#[derive(Clone, Debug)]
pub struct Keystore {
    pub key_type: String,
    pub xprv: Option<String>,
    pub xpub: String,
}

impl View for Keystore {
    type V = KeystoreView;

    open spec fn view(&self) -> KeystoreView {
        (self.key_type@, opt_text(self.xprv), self.xpub@)
    }
}

pub open spec fn keystore_views(v: Seq<Keystore>) -> Seq<KeystoreView> {
    v.map_values(|k: Keystore| k@)
}

pub open spec fn bip32_text() -> Seq<char> {
    seq!['b', 'i', 'p', '3', '2']
}

/// The keystore made for `kind` from the standard key text `raw`: a private
/// key is stored with the public key derived from it, a public key alone.
pub open spec fn keystore_spec(kind: ScriptKind, raw: Seq<char>) -> Result<KeystoreView, WalletError> {
    match base58check_data(raw) {
        None => Err(WalletError::InvalidExtendedKey),
        Some(p) => if p.len() != KEY_LEN {
            Err(WalletError::InvalidExtendedKey)
        } else {
            match standard_class(version_of(p)) {
                Some((true, _)) => match public_of_private(p) {
                    Some(q) => match (tag_payload(p, kind), tag_payload(q, kind)) {
                        (Some(a), Some(b)) => Ok(
                            (bip32_text(), Some(base58check_text(a)), base58check_text(b)),
                        ),
                        _ => Err(WalletError::InvalidExtendedKey),
                    },
                    None => Err(WalletError::InvalidExtendedKey),
                },
                Some((false, _)) => if public_parses(p) {
                    match tag_payload(p, kind) {
                        Some(b) => Ok((bip32_text(), None, base58check_text(b))),
                        None => Err(WalletError::InvalidExtendedKey),
                    }
                } else {
                    Err(WalletError::InvalidExtendedKey)
                },
                None => Err(WalletError::InvalidExtendedKey),
            }
        },
    }
}

/// Whether a standard key text makes a keystore: its data is a private key
/// that the curve library accepts, or a public key that parses.
pub open spec fn key_accepted(raw: Seq<char>) -> bool {
    match base58check_data(raw) {
        Some(p) => p.len() == KEY_LEN && match standard_class(version_of(p)) {
            Some((true, _)) => public_of_private(p) is Some,
            Some((false, _)) => public_parses(p),
            None => false,
        },
        None => false,
    }
}

/// The standard text of the public key that goes with a standard key text:
/// the derived public key for a private key, the text itself otherwise.
pub open spec fn public_key_text(raw: Seq<char>) -> Seq<char> {
    match base58check_data(raw) {
        Some(p) => match standard_class(version_of(p)) {
            Some((true, _)) => match public_of_private(p) {
                Some(q) => base58check_text(q),
                None => raw,
            },
            _ => raw,
        },
        None => raw,
    }
}

/// The tagged text a keystore holds for the key it was made from: the
/// private key where there is one, else the public key.
pub open spec fn source_tagged(v: KeystoreView) -> Seq<char> {
    match v.1 {
        Some(x) => x,
        None => v.2,
    }
}

/// What a keystore made for `kind` from `raw` holds beyond `keystore_spec`:
/// the key it came from re-encodes to its tagged text, and its public key
/// decodes to the matching public key with `kind`.
pub open spec fn keystore_facts(kind: ScriptKind, raw: Seq<char>, v: KeystoreView) -> bool {
    &&& encode_spec(raw, kind) == Ok::<Seq<char>, CodecError>(source_tagged(v))
    &&& decode_spec(v.2) == Ok::<(Seq<char>, ScriptKind), CodecError>((public_key_text(raw), kind))
    &&& handle_spec(v) == Ok::<(Seq<char>, ScriptKind), WalletError>((raw, kind))
}

/// The standard key text and script kind of a keystore: from the private key
/// where there is one, else from the public key.
pub open spec fn handle_spec(v: KeystoreView) -> Result<(Seq<char>, ScriptKind), WalletError> {
    let tagged = match v.1 {
        Some(x) => x,
        None => v.2,
    };
    match decode_spec(tagged) {
        Ok(h) => Ok(h),
        Err(_) => Err(WalletError::InvalidExtendedKey),
    }
}

/// A key as a descriptor names it: standard text, and the script kind its tag gave.
#[derive(Clone, Debug)]
pub struct DescriptorKey {
    pub kind: ScriptKind,
    pub key: String,
}

impl Keystore {
    /// Builds the keystore for `kind` from the standard key text `raw`.
    fn from_chars(kind: ScriptKind, raw: &Vec<char>) -> (r: Result<Keystore, WalletError>)
        ensures
            match r {
                Ok(ks) => keystore_spec(kind, raw@) == Ok::<KeystoreView, WalletError>(ks@)
                    && keystore_facts(kind, raw@, ks@) && key_accepted(raw@),
                Err(e) => keystore_spec(kind, raw@) == Err::<KeystoreView, WalletError>(e)
                    && !key_accepted(raw@),
            },
    {
        let p = match base58check_decode(raw) {
            Some(p) => p,
            None => return Err(WalletError::InvalidExtendedKey),
        };
        if p.len() != KEY_LEN {
            return Err(WalletError::InvalidExtendedKey);
        }
        let private = match standard_class_of(&p) {
            Some((private, _)) => private,
            None => return Err(WalletError::InvalidExtendedKey),
        };
        let bip32 = vec!['b', 'i', 'p', '3', '2'];
        assert(bip32@ =~= bip32_text());
        if private {
            let q = match derive_public(&p) {
                Some(q) => q,
                None => return Err(WalletError::InvalidExtendedKey),
            };
            let a = match tag_data(&p, kind) {
                Some(a) => a,
                None => return Err(WalletError::InvalidExtendedKey),
            };
            let b = match tag_data(&q, kind) {
                Some(b) => b,
                None => return Err(WalletError::InvalidExtendedKey),
            };
            let xprv = base58check_encode(&a);
            let xpub = base58check_encode(&b);
            proof {
                lemma_payload_round_trip(p@, kind);
                lemma_payload_round_trip(q@, kind);
            }
            Ok(Keystore {
                key_type: string_of(&bip32),
                xprv: Some(string_of(&xprv)),
                xpub: string_of(&xpub),
            })
        } else {
            if !check_public(&p) {
                return Err(WalletError::InvalidExtendedKey);
            }
            let b = match tag_data(&p, kind) {
                Some(b) => b,
                None => return Err(WalletError::InvalidExtendedKey),
            };
            let xpub = base58check_encode(&b);
            proof {
                lemma_payload_round_trip(p@, kind);
            }
            Ok(Keystore { key_type: string_of(&bip32), xprv: None, xpub: string_of(&xpub) })
        }
    }

    /// Builds the keystore for `kind` from a standard extended key text.
    /// On failure the context is the key text.
    pub fn new(kind: ScriptKind, xkey: &str) -> (r: Result<Keystore, ConversionError>)
        ensures
            match r {
                Ok(ks) => keystore_spec(kind, xkey@) == Ok::<KeystoreView, WalletError>(ks@)
                    && keystore_facts(kind, xkey@, ks@) && key_accepted(xkey@),
                Err(e) => keystore_spec(kind, xkey@) == Err::<KeystoreView, WalletError>(e.kind)
                    && e.context@ == xkey@ && !key_accepted(xkey@),
            },
    {
        let raw = chars_of(xkey);
        match Keystore::from_chars(kind, &raw) {
            Ok(ks) => Ok(ks),
            Err(k) => Err(ConversionError::on(k, &raw)),
        }
    }

    /// The key to put in a descriptor: the private key if there is one, else
    /// the public key, in standard form with its script kind. On failure the
    /// context is the tagged key text that did not decode.
    pub fn get_xkey(&self) -> (r: Result<DescriptorKey, ConversionError>)
        ensures
            match r {
                Ok(h) => handle_spec(self@) == Ok::<(Seq<char>, ScriptKind), WalletError>((h.key@, h.kind)),
                Err(e) => handle_spec(self@) == Err::<(Seq<char>, ScriptKind), WalletError>(e.kind)
                    && e.context@ == source_tagged(self@),
            },
    {
        let tagged = match &self.xprv {
            Some(x) => chars_of(x.as_str()),
            None => chars_of(self.xpub.as_str()),
        };
        match decode_chars(&tagged) {
            Ok((key, kind)) => Ok(DescriptorKey { kind, key: string_of(&key) }),
            Err(_) => Err(ConversionError::on(WalletError::InvalidExtendedKey, &tagged)),
        }
    }

    /// The tagged text of the key the keystore was made from.
    fn source_text(&self) -> (r: Vec<char>)
        ensures
            r@ == source_tagged(self@),
    {
        match &self.xprv {
            Some(x) => chars_of(x.as_str()),
            None => chars_of(self.xpub.as_str()),
        }
    }

    /// The type tag a keystore gets when none is given.
    pub fn default_type() -> (r: String)
        ensures
            r@ == bip32_text(),
    {
        let bip32 = vec!['b', 'i', 'p', '3', '2'];
        assert(bip32@ =~= bip32_text());
        string_of(&bip32)
    }
}

/// The address lists of a wallet document, carried through unchanged.
#[derive(Clone, Debug)]
pub struct Addresses {
    pub change: Vec<String>,
    pub receiving: Vec<String>,
}

impl Addresses {
    /// Empty address lists.
    pub fn new() -> (r: Addresses)
        ensures
            r.change@.len() == 0,
            r.receiving@.len() == 0,
    {
        Addresses { change: Vec::new(), receiving: Vec::new() }
    }
}

/// A wallet document: address lists, quorum policy and one keystore per
/// signer, in cosigner order.
#[derive(Clone, Debug)]
pub struct ElectrumWalletFile {
    pub addresses: Addresses,
    pub wallet_type: WalletType,
    pub keystores: Vec<Keystore>,
}

pub open spec fn sortedmulti_text() -> Seq<char> {
    seq!['s', 'o', 'r', 't', 'e', 'd', 'm', 'u', 'l', 't', 'i']
}

pub open spec fn contains_text(s: Seq<char>, pat: Seq<char>) -> bool {
    exists|i: int| 0 <= i && i + pat.len() <= s.len() && #[trigger] s.subrange(i, i + pat.len()) == pat
}

/// The kind and key of a receiving single-signature descriptor.
pub open spec fn single_parse_of(d: Seq<char>) -> Option<(ScriptKind, Seq<char>)> {
    if exists|kind: ScriptKind, k: Seq<char>|
        is_key_token(k) && d == #[trigger] single_descriptor(kind, k, '0') {
        Some(
            choose|kind: ScriptKind, k: Seq<char>|
                is_key_token(k) && d == #[trigger] single_descriptor(kind, k, '0'),
        )
    } else {
        None
    }
}

/// The kind, threshold and keys of a receiving sorted multisig descriptor.
pub open spec fn multi_parse_of(d: Seq<char>) -> Option<(ScriptKind, nat, Seq<Seq<char>>)> {
    if exists|kind: ScriptKind, m: nat, ks: Seq<Seq<char>>|
        multisig_kind(kind) && 1 <= m <= 255 && all_tokens(ks) && d == #[trigger] multi_descriptor(
            kind,
            m,
            ks,
            '0',
        ) {
        Some(
            choose|kind: ScriptKind, m: nat, ks: Seq<Seq<char>>|
                multisig_kind(kind) && 1 <= m <= 255 && all_tokens(ks) && d
                    == #[trigger] multi_descriptor(kind, m, ks, '0'),
        )
    } else {
        None
    }
}

/// Keystores for each key in order; the first failure wins.
pub open spec fn keystores_spec(kind: ScriptKind, keys: Seq<Seq<char>>) -> Result<
    Seq<KeystoreView>,
    WalletError,
>
    decreases keys.len(),
{
    if keys.len() == 0 {
        Ok(Seq::empty())
    } else {
        match keystores_spec(kind, keys.drop_last()) {
            Err(e) => Err(e),
            Ok(ks) => match keystore_spec(kind, keys.last()) {
                Err(e) => Err(e),
                Ok(k) => Ok(ks.push(k)),
            },
        }
    }
}

/// Wallet type and keystores that a receiving descriptor converts to.
pub open spec fn from_descriptor_spec(d: Seq<char>) -> Result<
    (WalletType, Seq<KeystoreView>),
    WalletError,
> {
    if contains_text(d, sortedmulti_text()) {
        match multi_parse_of(d) {
            None => Err(WalletError::UnrecognizedDescriptor),
            Some((kind, m, keys)) => if keys.len() < 2 {
                Err(WalletError::InsufficientSigners)
            } else if keys.len() > 255 {
                Err(WalletError::UnrecognizedDescriptor)
            } else {
                match keystores_spec(kind, keys) {
                    Err(e) => Err(e),
                    Ok(ks) => Ok((WalletType::Multisig(m as u8, keys.len() as u8), ks)),
                }
            },
        }
    } else {
        match single_parse_of(d) {
            None => Err(WalletError::UnrecognizedDescriptor),
            Some((kind, k)) => match keystore_spec(kind, k) {
                Err(e) => Err(e),
                Ok(ks) => Ok((WalletType::Standard, seq![ks])),
            },
        }
    }
}

/// The change descriptor that goes with a receiving descriptor: the same text
/// on the `/1/*` branch.
pub open spec fn change_form(d: Seq<char>) -> Seq<char> {
    if contains_text(d, sortedmulti_text()) {
        match multi_parse_of(d) {
            Some((kind, m, keys)) => multi_descriptor(kind, m, keys, '1'),
            None => d,
        }
    } else {
        match single_parse_of(d) {
            Some((kind, k)) => single_descriptor(kind, k, '1'),
            None => d,
        }
    }
}

/// The script kind and key texts, in text order, that a receiving descriptor names.
pub open spec fn descriptor_parts(d: Seq<char>) -> (ScriptKind, Seq<Seq<char>>) {
    if contains_text(d, sortedmulti_text()) {
        match multi_parse_of(d) {
            Some((kind, _, keys)) => (kind, keys),
            None => (ScriptKind::Pkh, Seq::empty()),
        }
    } else {
        match single_parse_of(d) {
            Some((kind, k)) => (kind, seq![k]),
            None => (ScriptKind::Pkh, Seq::empty()),
        }
    }
}

/// A receiving single-signature descriptor built from a key token without
/// the letter `l` (no base58 text has it) reads back as that kind and key, and
/// its change form is the same template on the `/1/*` branch.
pub proof fn lemma_single_descriptor_reads_back(kind: ScriptKind, k: Seq<char>)
    requires
        is_key_token(k),
        forall|i: int| 0 <= i < k.len() ==> k[i] != 'l',
    ensures
        !contains_text(single_descriptor(kind, k, '0'), sortedmulti_text()),
        single_parse_of(single_descriptor(kind, k, '0')) == Some((kind, k)),
        descriptor_parts(single_descriptor(kind, k, '0')) == (kind, seq![k]),
        change_form(single_descriptor(kind, k, '0')) == single_descriptor(kind, k, '1'),
{
    let d = single_descriptor(kind, k, '0');
    let o = single_open(kind);
    assert forall|i: int| 0 <= i < d.len() implies d[i] != 'l' by {
        if i >= o.len() && i < o.len() + k.len() {
            assert(d[i] == k[i - o.len()]);
        }
    }
    if contains_text(d, sortedmulti_text()) {
        let i = choose|i: int|
            0 <= i && i + sortedmulti_text().len() <= d.len() && #[trigger] d.subrange(
                i,
                i + sortedmulti_text().len(),
            ) == sortedmulti_text();
        assert(d.subrange(i, i + 11)[8] == 'l');
        assert(d[i + 8] == 'l');
    }
    lemma_single_unique(d, kind, k);
    assert(is_key_token(k) && d == single_descriptor(kind, k, '0'));
}

/// A receiving sorted multisig descriptor reads back as its kind, threshold
/// and keys, and its change form is the same text on the `/1/*` branch.
pub proof fn lemma_multi_descriptor_reads_back(kind: ScriptKind, m: nat, ks: Seq<Seq<char>>)
    requires
        multisig_kind(kind),
        1 <= m <= 255,
        all_tokens(ks),
    ensures
        contains_text(multi_descriptor(kind, m, ks, '0'), sortedmulti_text()),
        multi_parse_of(multi_descriptor(kind, m, ks, '0')) == Some((kind, m, ks)),
        descriptor_parts(multi_descriptor(kind, m, ks, '0')) == (kind, ks),
        change_form(multi_descriptor(kind, m, ks, '0')) == multi_descriptor(kind, m, ks, '1'),
{
    let d = multi_descriptor(kind, m, ks, '0');
    let o = multi_open(kind);
    let i = o.len() - 12;
    assert(d.subrange(i, i + 11) =~= sortedmulti_text()) by {
        assert forall|x: int| 0 <= x < 11 implies d.subrange(i, i + 11)[x] == sortedmulti_text()[x] by {
            assert(d[i + x] == o[i + x]);
        }
    }
    assert(d.subrange(i, i + sortedmulti_text().len()) == sortedmulti_text());
    assert(multisig_kind(kind) && 1 <= m <= 255 && all_tokens(ks) && d == multi_descriptor(
        kind,
        m,
        ks,
        '0',
    ));
    let t = choose|kind2: ScriptKind, m2: nat, ks2: Seq<Seq<char>>|
        multisig_kind(kind2) && 1 <= m2 <= 255 && all_tokens(ks2) && d
            == #[trigger] multi_descriptor(kind2, m2, ks2, '0');
    lemma_multi_unique(kind, m, ks, t.0, t.1, t.2);
}

/// The descriptors of the document that a receiving descriptor converts to.
pub open spec fn descriptors_via_document(d: Seq<char>) -> Result<Seq<Seq<char>>, WalletError> {
    match from_descriptor_spec(d) {
        Ok((w, ks)) => to_descriptors_spec(w, ks),
        Err(e) => Err(e),
    }
}

/// Key texts and kinds of every keystore in order; the first failure wins.
pub open spec fn handles_spec(ks: Seq<KeystoreView>) -> Result<
    Seq<(Seq<char>, ScriptKind)>,
    WalletError,
>
    decreases ks.len(),
{
    if ks.len() == 0 {
        Ok(Seq::empty())
    } else {
        match handles_spec(ks.drop_last()) {
            Err(e) => Err(e),
            Ok(hs) => match handle_spec(ks.last()) {
                Err(e) => Err(e),
                Ok(h) => Ok(hs.push(h)),
            },
        }
    }
}

pub open spec fn handle_keys(hs: Seq<(Seq<char>, ScriptKind)>) -> Seq<Seq<char>> {
    hs.map_values(|h: (Seq<char>, ScriptKind)| h.0)
}

/// The receiving and change descriptors of a wallet.
pub open spec fn to_descriptors_spec(w: WalletType, ks: Seq<KeystoreView>) -> Result<
    Seq<Seq<char>>,
    WalletError,
> {
    match w {
        WalletType::Standard => if ks.len() == 0 {
            Err(WalletError::InvalidExtendedKey)
        } else {
            match handle_spec(ks[0]) {
                Err(e) => Err(e),
                Ok((k, kind)) => Ok(
                    seq![single_descriptor(kind, k, '0'), single_descriptor(kind, k, '1')],
                ),
            }
        },
        WalletType::Multisig(m, _) => match handles_spec(ks) {
            Err(e) => Err(e),
            Ok(hs) => if hs.len() == 0 {
                Err(WalletError::InvalidExtendedKey)
            } else if !multisig_kind(hs[0].1) {
                Err(WalletError::UnknownScriptKind)
            } else {
                Ok(
                    seq![
                        multi_descriptor(hs[0].1, m as nat, handle_keys(hs), '0'),
                        multi_descriptor(hs[0].1, m as nat, handle_keys(hs), '1'),
                    ],
                )
            },
        },
    }
}

fn contains(s: &Vec<char>, pat: &Vec<char>) -> (r: bool)
    requires
        pat@.len() > 0,
    ensures
        r == contains_text(s@, pat@),
{
    let mut i: usize = 0;
    while i < s.len()
        invariant
            i <= s@.len(),
            forall|j: int|
                0 <= j < i && j + pat@.len() <= s@.len() ==> #[trigger] s@.subrange(
                    j,
                    j + pat@.len(),
                ) != pat@,
        decreases s@.len() - i,
    {
        if has_at(s, i, pat) {
            return true;
        }
        i = i + 1;
    }
    false
}

fn keystores_for(kind: ScriptKind, keys: &Vec<Vec<char>>) -> (r: Result<
    Vec<Keystore>,
    (WalletError, usize),
>)
    ensures
        match r {
            Ok(v) => keystores_spec(kind, views(keys@)) == Ok::<Seq<KeystoreView>, WalletError>(
                keystore_views(v@),
            ) && v@.len() == keys@.len() && forall|i: int|
                0 <= i < v@.len() ==> keystore_facts(kind, keys@[i]@, #[trigger] v@[i]@),
            Err((e, i)) => keystores_spec(kind, views(keys@)) == Err::<Seq<KeystoreView>, WalletError>(
                e,
            ) && i < keys@.len() && keystore_spec(kind, keys@[i as int]@) is Err
                && e == WalletError::InvalidExtendedKey,
        },
{
    let mut v: Vec<Keystore> = Vec::new();
    let mut i: usize = 0;
    assert(views(keys@).take(0) =~= Seq::<Seq<char>>::empty());
    assert(keystore_views(v@) =~= Seq::<KeystoreView>::empty());
    while i < keys.len()
        invariant
            i <= keys@.len(),
            v@.len() == i,
            keystores_spec(kind, views(keys@).take(i as int)) == Ok::<
                Seq<KeystoreView>,
                WalletError,
            >(keystore_views(v@)),
            forall|j: int| 0 <= j < i ==> keystore_facts(kind, keys@[j]@, #[trigger] v@[j]@),
        decreases keys@.len() - i,
    {
        let ghost prefix = views(keys@).take(i + 1);
        assert(prefix.drop_last() =~= views(keys@).take(i as int));
        assert(prefix.last() == keys@[i as int]@);
        let ks = match Keystore::from_chars(kind, &keys[i]) {
            Ok(ks) => ks,
            Err(e) => {
                proof {
                    lemma_keystores_prefix_error(kind, views(keys@), i + 1);
                    assert(keystore_spec(kind, keys@[i as int]@) == Err::<KeystoreView, WalletError>(e));
                    assert(e == WalletError::InvalidExtendedKey);
                }
                return Err((e, i));
            },
        };
        let ghost old_v = v@;
        v.push(ks);
        assert(keystore_views(v@) =~= keystore_views(old_v).push(ks@));
        i = i + 1;
    }
    assert(views(keys@).take(keys@.len() as int) =~= views(keys@));
    Ok(v)
}

proof fn lemma_keystores_prefix_error(kind: ScriptKind, keys: Seq<Seq<char>>, n: int)
    requires
        0 <= n <= keys.len(),
        keystores_spec(kind, keys.take(n)) is Err,
    ensures
        keystores_spec(kind, keys) == keystores_spec(kind, keys.take(n)),
    decreases keys.len() - n,
{
    if n < keys.len() {
        let next = keys.take(n + 1);
        assert(next.drop_last() =~= keys.take(n));
        lemma_keystores_prefix_error(kind, keys, n + 1);
    } else {
        assert(keys.take(n) =~= keys);
    }
}

proof fn lemma_handles_prefix_error(ks: Seq<KeystoreView>, n: int)
    requires
        0 <= n <= ks.len(),
        handles_spec(ks.take(n)) is Err,
    ensures
        handles_spec(ks) == handles_spec(ks.take(n)),
    decreases ks.len() - n,
{
    if n < ks.len() {
        let next = ks.take(n + 1);
        assert(next.drop_last() =~= ks.take(n));
        lemma_handles_prefix_error(ks, n + 1);
    } else {
        assert(ks.take(n) =~= ks);
    }
}

/// Keystores whose handles are given keys with one kind hand those keys back.
proof fn lemma_handles_of_keys(kind: ScriptKind, ks: Seq<KeystoreView>, keys: Seq<Seq<char>>)
    requires
        ks.len() == keys.len(),
        forall|i: int|
            0 <= i < ks.len() ==> handle_spec(#[trigger] ks[i]) == Ok::<
                (Seq<char>, ScriptKind),
                WalletError,
            >((keys[i], kind)),
    ensures
        handles_spec(ks) == Ok::<Seq<(Seq<char>, ScriptKind)>, WalletError>(
            keys.map_values(|k: Seq<char>| (k, kind)),
        ),
    decreases ks.len(),
{
    if ks.len() > 0 {
        lemma_handles_of_keys(kind, ks.drop_last(), keys.drop_last());
        assert(keys.map_values(|k: Seq<char>| (k, kind)) =~= keys.drop_last().map_values(
            |k: Seq<char>| (k, kind),
        ).push((keys.last(), kind)));
    } else {
        assert(keys.map_values(|k: Seq<char>| (k, kind)) =~= Seq::<(Seq<char>, ScriptKind)>::empty());
    }
}

fn is_multisig_kind(kind: ScriptKind) -> (r: bool)
    ensures
        r == multisig_kind(kind),
{
    match kind {
        ScriptKind::Pkh | ScriptKind::Wsh | ScriptKind::ShWsh => true,
        _ => false,
    }
}

impl ElectrumWalletFile {
    /// Converts a receiving output descriptor (single key, or sorted multisig
    /// with a threshold from 1 to 255) to a wallet document. The change
    /// descriptor is implied. Rendering the document gives the descriptor back
    /// with its change form, and a document built again from that rendering
    /// renders to the same two descriptors.
    pub fn from_descriptor(desc: &str) -> (r: Result<ElectrumWalletFile, ConversionError>)
        ensures
            match r {
                Ok(w) => from_descriptor_spec(desc@) == Ok::<
                    (WalletType, Seq<KeystoreView>),
                    WalletError,
                >((w.wallet_type, keystore_views(w.keystores@)))
                    && w.addresses.change@.len() == 0 && w.addresses.receiving@.len() == 0
                    && to_descriptors_spec(w.wallet_type, keystore_views(w.keystores@)) == Ok::<
                    Seq<Seq<char>>,
                    WalletError,
                >(seq![desc@, change_form(desc@)])
                    && descriptors_via_document(seq![desc@, change_form(desc@)][0]) == Ok::<
                    Seq<Seq<char>>,
                    WalletError,
                >(seq![desc@, change_form(desc@)])
                    && w.keystores@.len() == descriptor_parts(desc@).1.len()
                    && forall|i: int| 0 <= i < w.keystores@.len() ==> keystore_facts(
                        descriptor_parts(desc@).0,
                        descriptor_parts(desc@).1[i],
                        #[trigger] w.keystores@[i]@,
                    ),
                Err(e) => from_descriptor_spec(desc@) == Err::<
                    (WalletType, Seq<KeystoreView>),
                    WalletError,
                >(e.kind) && (e.kind == WalletError::InvalidExtendedKey ==> exists|i: int|
                    0 <= i < descriptor_parts(desc@).1.len() && e.context@ == descriptor_parts(
                        desc@,
                    ).1[i] && #[trigger] keystore_spec(
                        descriptor_parts(desc@).0,
                        descriptor_parts(desc@).1[i],
                    ) is Err) && (e.kind != WalletError::InvalidExtendedKey ==> e.context@
                    == desc@),
            },
    {
        let d = chars_of(desc);
        let sm = vec!['s', 'o', 'r', 't', 'e', 'd', 'm', 'u', 'l', 't', 'i'];
        assert(sm@ =~= sortedmulti_text());
        if contains(&d, &sm) {
            match parse_multi(&d) {
                None => Err(ConversionError::on(WalletError::UnrecognizedDescriptor, &d)),
                Some((kind, m, keys)) => {
                    let ghost kv = views(keys@);
                    proof {
                        let t = choose|kind2: ScriptKind, m2: nat, ks: Seq<Seq<char>>|
                            multisig_kind(kind2) && 1 <= m2 <= 255 && all_tokens(ks) && d@
                                == #[trigger] multi_descriptor(kind2, m2, ks, '0');
                        assert(multisig_kind(kind) && 1 <= m as nat <= 255 && all_tokens(kv) && d@
                            == multi_descriptor(kind, m as nat, kv, '0'));
                        assert(multi_parse_of(d@) == Some((kind, m as nat, kv)));
                    }
                    if keys.len() < 2 {
                        return Err(ConversionError::on(WalletError::InsufficientSigners, &d));
                    }
                    if keys.len() > 255 {
                        return Err(ConversionError::on(WalletError::UnrecognizedDescriptor, &d));
                    }
                    let ks = match keystores_for(kind, &keys) {
                        Ok(ks) => ks,
                        Err((e, i)) => {
                            proof {
                                assert(kv[i as int] == keys@[i as int]@);
                                assert(descriptor_parts(desc@) == (kind, kv));
                                assert(keystore_spec(
                                    descriptor_parts(desc@).0,
                                    descriptor_parts(desc@).1[i as int],
                                ) is Err);
                            }
                            return Err(ConversionError::on(e, &keys[i]));
                        },
                    };
                    proof {
                        let ksv = keystore_views(ks@);
                        assert forall|i: int| 0 <= i < ksv.len() implies handle_spec(
                            #[trigger] ksv[i],
                        ) == Ok::<(Seq<char>, ScriptKind), WalletError>((kv[i], kind)) by {
                            assert(ksv[i] == ks@[i]@);
                            assert(kv[i] == keys@[i]@);
                            assert(keystore_facts(kind, keys@[i]@, ks@[i]@));
                        }
                        lemma_handles_of_keys(kind, ksv, kv);
                        let hs = kv.map_values(|k: Seq<char>| (k, kind));
                        assert(handle_keys(hs) =~= kv);
                        assert(hs[0].1 == kind);
                        assert forall|i: int| 0 <= i < ks@.len() implies keystore_facts(
                            kind,
                            kv[i],
                            #[trigger] ks@[i]@,
                        ) by {
                            assert(kv[i] == keys@[i]@);
                        }
                    }
                    Ok(ElectrumWalletFile {
                        addresses: Addresses::new(),
                        wallet_type: WalletType::Multisig(m, keys.len() as u8),
                        keystores: ks,
                    })
                },
            }
        } else {
            match parse_single(&d) {
                None => Err(ConversionError::on(WalletError::UnrecognizedDescriptor, &d)),
                Some((kind, k)) => {
                    proof {
                        let t = choose|kind2: ScriptKind, k2: Seq<char>|
                            is_key_token(k2) && d@ == #[trigger] single_descriptor(kind2, k2, '0');
                        assert(is_key_token(k@) && d@ == single_descriptor(kind, k@, '0'));
                        assert(single_parse_of(d@) == Some((kind, k@)));
                    }
                    let ks = match Keystore::from_chars(kind, &k) {
                        Ok(ks) => ks,
                        Err(e) => {
                            proof {
                                assert(seq![k@][0] == k@);
                                assert(descriptor_parts(desc@) == (kind, seq![k@]));
                                assert(keystore_spec(
                                    descriptor_parts(desc@).0,
                                    descriptor_parts(desc@).1[0],
                                ) is Err);
                            }
                            return Err(ConversionError::on(e, &k));
                        },
                    };
                    let keystores = vec![ks];
                    assert(keystore_views(keystores@) =~= seq![ks@]);
                    assert(keystores@[0] == ks);
                    Ok(ElectrumWalletFile {
                        addresses: Addresses::new(),
                        wallet_type: WalletType::Standard,
                        keystores,
                    })
                },
            }
        }
    }

    /// The receiving and change output descriptors of the wallet, in that order.
    /// On failure the context is the tagged key text of the keystore that
    /// failed (the first one for a script kind without multisig form), or
    /// empty when there is no keystore.
    pub fn to_descriptors(&self) -> (r: Result<Vec<String>, ConversionError>)
        ensures
            match r {
                Ok(v) => to_descriptors_spec(self.wallet_type, keystore_views(self.keystores@))
                    == Ok::<Seq<Seq<char>>, WalletError>(texts(v@)),
                Err(e) => to_descriptors_spec(self.wallet_type, keystore_views(self.keystores@))
                    == Err::<Seq<Seq<char>>, WalletError>(e.kind) && (self.keystores@.len() == 0
                    ==> e.context@.len() == 0) && (e.kind == WalletError::UnknownScriptKind
                    ==> e.context@ == source_tagged(self.keystores@[0]@)) && (e.kind
                    == WalletError::InvalidExtendedKey && self.keystores@.len() > 0 ==> exists|
                    i: int,
                |
                    0 <= i < self.keystores@.len() && e.context@ == source_tagged(
                        (#[trigger] self.keystores@[i])@,
                    ) && handle_spec(self.keystores@[i]@) is Err),
            },
    {
        let ghost ksv = keystore_views(self.keystores@);
        match self.wallet_type {
            WalletType::Standard => {
                if self.keystores.len() == 0 {
                    return Err(ConversionError::on(WalletError::InvalidExtendedKey, &Vec::new()));
                }
                assert(ksv[0] == self.keystores@[0]@);
                let h = match self.keystores[0].get_xkey() {
                    Ok(h) => h,
                    Err(e) => return Err(e),
                };
                let key = chars_of(h.key.as_str());
                let a = string_of(&render_single(h.kind, &key, '0'));
                let b = string_of(&render_single(h.kind, &key, '1'));
                let v = vec![a, b];
                assert(texts(v@) =~= seq![a@, b@]);
                Ok(v)
            },
            WalletType::Multisig(m, n) => {
                let mut keys: Vec<Vec<char>> = Vec::new();
                let mut first: Option<ScriptKind> = None;
                let ghost mut hs: Seq<(Seq<char>, ScriptKind)> = Seq::empty();
                let mut i: usize = 0;
                assert(ksv.take(0) =~= Seq::<KeystoreView>::empty());
                while i < self.keystores.len()
                    invariant
                        i <= self.keystores@.len(),
                        ksv == keystore_views(self.keystores@),
                        self.wallet_type == WalletType::Multisig(m, n),
                        handles_spec(ksv.take(i as int)) == Ok::<
                            Seq<(Seq<char>, ScriptKind)>,
                            WalletError,
                        >(hs),
                        hs.len() == i,
                        views(keys@) == handle_keys(hs),
                        i == 0 ==> first is None,
                        i > 0 ==> first == Some(hs[0].1),
                    decreases self.keystores@.len() - i,
                {
                    let ghost prefix = ksv.take(i + 1);
                    assert(prefix.drop_last() =~= ksv.take(i as int));
                    assert(prefix.last() == self.keystores@[i as int]@);
                    let h = match self.keystores[i].get_xkey() {
                        Ok(h) => h,
                        Err(e) => {
                            proof {
                                assert(handle_spec(prefix.last()) == Err::<
                                    (Seq<char>, ScriptKind),
                                    WalletError,
                                >(e.kind));
                                assert(handles_spec(prefix) == Err::<
                                    Seq<(Seq<char>, ScriptKind)>,
                                    WalletError,
                                >(e.kind));
                                lemma_handles_prefix_error(ksv, i + 1);
                            }
                            return Err(e);
                        },
                    };
                    if i == 0 {
                        first = Some(h.kind);
                    }
                    let ghost old_keys = views(keys@);
                    keys.push(chars_of(h.key.as_str()));
                    proof {
                        hs = hs.push((h.key@, h.kind));
                        assert(views(keys@) =~= old_keys.push(h.key@));
                        assert(handle_keys(hs) =~= views(keys@));
                    }
                    i = i + 1;
                }
                assert(ksv.take(i as int) =~= ksv);
                let kind = match first {
                    Some(k) => k,
                    None => return Err(ConversionError::on(WalletError::InvalidExtendedKey, &Vec::new())),
                };
                if !is_multisig_kind(kind) {
                    return Err(
                        ConversionError::on(
                            WalletError::UnknownScriptKind,
                            &self.keystores[0].source_text(),
                        ),
                    );
                }
                let a = string_of(&render_multi(kind, m, &keys, '0'));
                let b = string_of(&render_multi(kind, m, &keys, '1'));
                let v = vec![a, b];
                assert(texts(v@) =~= seq![a@, b@]);
                Ok(v)
            },
        }
    }
}

} // verus!
