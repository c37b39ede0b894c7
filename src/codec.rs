//! Re-encoding of BIP32 extended keys between the standard version bytes used
//! in descriptors and the tagged version bytes that also name a script kind.
use vstd::prelude::*;

verus! {

/// The output-script family that a tagged extended key stands for.
#[derive(Clone, Copy, Debug, PartialEq, Eq, Structural)]
pub enum ScriptKind {
    Pkh,
    Wpkh,
    ShWpkh,
    Wsh,
    ShWsh,
}

/// Why an extended key could not be re-encoded.
#[derive(Clone, Copy, Debug, PartialEq, Eq, Structural)]
pub enum CodecError {
    /// The text is no base58check encoding, or the data is not 78 bytes long.
    MalformedBase58,
    /// The four version bytes are in neither table.
    UnknownVersion,
}

/// The four version bytes at the front of a serialized extended key.
pub type Version = (u8, u8, u8, u8);

/// Length in bytes of a serialized extended key.
pub const KEY_LEN: usize = 78;

/// Version bytes of plain BIP32 keys: one per (private, testnet) pair.
pub open spec fn standard_version(private: bool, testnet: bool) -> Version {
    if !testnet {
        if private { (0x04, 0x88, 0xad, 0xe4) } else { (0x04, 0x88, 0xb2, 0x1e) }
    } else {
        if private { (0x04, 0x35, 0x83, 0x94) } else { (0x04, 0x35, 0x87, 0xcf) }
    }
}

/// Version bytes of tagged keys: legacy keys keep the plain BIP32 versions,
/// every other script kind has one of its own.
pub open spec fn tagged_version(kind: ScriptKind, private: bool, testnet: bool) -> Version {
    match kind {
        ScriptKind::Pkh => standard_version(private, testnet),
        ScriptKind::Wpkh => if !testnet {
            if private { (0x04, 0xb2, 0x43, 0x0c) } else { (0x04, 0xb2, 0x47, 0x46) }
        } else {
            if private { (0x04, 0x5f, 0x18, 0xbc) } else { (0x04, 0x5f, 0x1c, 0xf6) }
        },
        ScriptKind::ShWpkh => if !testnet {
            if private { (0x04, 0x9d, 0x78, 0x78) } else { (0x04, 0x9d, 0x7c, 0xb2) }
        } else {
            if private { (0x04, 0x4a, 0x4e, 0x28) } else { (0x04, 0x4a, 0x52, 0x62) }
        },
        ScriptKind::Wsh => if !testnet {
            if private { (0x02, 0xaa, 0x7a, 0x99) } else { (0x02, 0xaa, 0x7e, 0xd3) }
        } else {
            if private { (0x02, 0x57, 0x50, 0x48) } else { (0x02, 0x57, 0x54, 0x83) }
        },
        ScriptKind::ShWsh => if !testnet {
            if private { (0x02, 0x95, 0xb0, 0x05) } else { (0x02, 0x95, 0xb4, 0x3f) }
        } else {
            if private { (0x02, 0x42, 0x85, 0xb5) } else { (0x02, 0x42, 0x89, 0xef) }
        },
    }
}

pub open spec fn version_of(p: Seq<u8>) -> Version {
    (p[0], p[1], p[2], p[3])
}

/// `p` with its first four bytes replaced by `v`.
pub open spec fn with_version(p: Seq<u8>, v: Version) -> Seq<u8> {
    seq![v.0, v.1, v.2, v.3] + p.subrange(4, p.len() as int)
}

/// Which (private, testnet) pair a plain BIP32 version stands for.
pub open spec fn standard_class(v: Version) -> Option<(bool, bool)> {
    if v == standard_version(true, false) {
        Some((true, false))
    } else if v == standard_version(false, false) {
        Some((false, false))
    } else if v == standard_version(true, true) {
        Some((true, true))
    } else if v == standard_version(false, true) {
        Some((false, true))
    } else {
        None
    }
}

pub open spec fn is_tag(v: Version) -> bool {
    exists|k: ScriptKind, pr: bool, t: bool| tagged_version(k, pr, t) == v
}

/// Standard key data re-tagged for `kind`.
pub open spec fn tag_payload(p: Seq<u8>, kind: ScriptKind) -> Option<Seq<u8>> {
    if p.len() == KEY_LEN {
        match standard_class(version_of(p)) {
            Some((pr, t)) => Some(with_version(p, tagged_version(kind, pr, t))),
            None => None,
        }
    } else {
        None
    }
}

/// Tagged key data turned back to standard data, with the kind its tag names.
pub open spec fn untag_payload(p: Seq<u8>) -> Option<(Seq<u8>, ScriptKind)> {
    if p.len() == KEY_LEN && is_tag(version_of(p)) {
        let (k, pr, t) = choose|k: ScriptKind, pr: bool, t: bool|
            tagged_version(k, pr, t) == version_of(p);
        Some((with_version(p, standard_version(pr, t)), k))
    } else {
        None
    }
}

/// The base58check text of some data (checksum appended, then base58).
pub uninterp spec fn base58check_text(data: Seq<u8>) -> Seq<char>;

/// The data that a base58check text holds, if its alphabet and checksum are right.
pub uninterp spec fn base58check_data(text: Seq<char>) -> Option<Seq<u8>>;

/// Public BIP32 key data derived from private BIP32 key data, where the
/// private data parses.
pub uninterp spec fn public_of_private(data: Seq<u8>) -> Option<Seq<u8>>;

/// Whether public BIP32 key data parses (standard version, valid curve point).
pub uninterp spec fn public_parses(data: Seq<u8>) -> bool;

/// What `encode` returns for a standard key text.
pub open spec fn encode_spec(raw: Seq<char>, kind: ScriptKind) -> Result<Seq<char>, CodecError> {
    match base58check_data(raw) {
        None => Err(CodecError::MalformedBase58),
        Some(p) => if p.len() != KEY_LEN {
            Err(CodecError::MalformedBase58)
        } else {
            match tag_payload(p, kind) {
                Some(q) => Ok(base58check_text(q)),
                None => Err(CodecError::UnknownVersion),
            }
        },
    }
}

/// What `decode` returns for a tagged key text.
pub open spec fn decode_spec(tagged: Seq<char>) -> Result<(Seq<char>, ScriptKind), CodecError> {
    match base58check_data(tagged) {
        None => Err(CodecError::MalformedBase58),
        Some(p) => if p.len() != KEY_LEN {
            Err(CodecError::MalformedBase58)
        } else {
            match untag_payload(p) {
                Some((q, k)) => Ok((base58check_text(q), k)),
                None => Err(CodecError::UnknownVersion),
            }
        },
    }
}

/// Relies on bitcoin::util::base58::from_check: it decodes base58, checks the
/// four-byte checksum and strips it. Base58 is canonical, so the data
/// re-encodes to the same text.
#[verifier::external_body]
pub(crate) fn base58check_decode(text: &Vec<char>) -> (r: Option<Vec<u8>>)
    ensures
        match r {
            Some(d) => base58check_data(text@) == Some(d@) && base58check_text(d@) == text@,
            None => base58check_data(text@) is None,
        },
{
    let s: String = text.iter().collect();
    bitcoin::util::base58::from_check(&s).ok()
}

/// Relies on bitcoin::util::base58::check_encode_slice: it appends the
/// checksum and encodes base58, which from_check takes back to the data.
#[verifier::external_body]
pub(crate) fn base58check_encode(data: &Vec<u8>) -> (r: Vec<char>)
    ensures
        r@ == base58check_text(data@),
        base58check_data(r@) == Some(data@),
{
    bitcoin::util::base58::check_encode_slice(data).chars().collect()
}

/// Relies on bitcoin's ExtendedPrivKey::decode, ExtendedPubKey::from_priv and
/// ExtendedPubKey::encode: the public key data of a private key, 78 bytes.
/// Decoding accepts only the plain private versions; the public data keeps
/// depth, parent fingerprint, child number and chain code (bytes 4 to 44) and
/// takes the plain public version of the same network.
#[verifier::external_body]
pub(crate) fn derive_public(data: &Vec<u8>) -> (r: Option<Vec<u8>>)
    ensures
        match r {
            Some(q) => public_of_private(data@) == Some(q@) && q@.len() == KEY_LEN
                && data@.len() == KEY_LEN && q@.subrange(4, 45) == data@.subrange(4, 45)
                && match standard_class(version_of(data@)) {
                Some((private, testnet)) => private && version_of(q@) == standard_version(
                    false,
                    testnet,
                ),
                None => false,
            },
            None => public_of_private(data@) is None,
        },
{
    let sk = bitcoin::util::bip32::ExtendedPrivKey::decode(data).ok()?;
    let secp = bitcoin::secp256k1::Secp256k1::new();
    Some(bitcoin::util::bip32::ExtendedPubKey::from_priv(&secp, &sk).encode().to_vec())
}

/// Relies on bitcoin's ExtendedPubKey::decode: whether the data is a public key.
#[verifier::external_body]
pub(crate) fn check_public(data: &Vec<u8>) -> (r: bool)
    ensures
        r == public_parses(data@),
{
    bitcoin::util::bip32::ExtendedPubKey::decode(data).is_ok()
}

fn standard_version_exec(private: bool, testnet: bool) -> (r: Version)
    ensures
        r == standard_version(private, testnet),
{
    if !testnet {
        if private { (0x04, 0x88, 0xad, 0xe4) } else { (0x04, 0x88, 0xb2, 0x1e) }
    } else {
        if private { (0x04, 0x35, 0x83, 0x94) } else { (0x04, 0x35, 0x87, 0xcf) }
    }
}

fn tagged_version_exec(kind: ScriptKind, private: bool, testnet: bool) -> (r: Version)
    ensures
        r == tagged_version(kind, private, testnet),
{
    match kind {
        ScriptKind::Pkh => standard_version_exec(private, testnet),
        ScriptKind::Wpkh => if !testnet {
            if private { (0x04, 0xb2, 0x43, 0x0c) } else { (0x04, 0xb2, 0x47, 0x46) }
        } else {
            if private { (0x04, 0x5f, 0x18, 0xbc) } else { (0x04, 0x5f, 0x1c, 0xf6) }
        },
        ScriptKind::ShWpkh => if !testnet {
            if private { (0x04, 0x9d, 0x78, 0x78) } else { (0x04, 0x9d, 0x7c, 0xb2) }
        } else {
            if private { (0x04, 0x4a, 0x4e, 0x28) } else { (0x04, 0x4a, 0x52, 0x62) }
        },
        ScriptKind::Wsh => if !testnet {
            if private { (0x02, 0xaa, 0x7a, 0x99) } else { (0x02, 0xaa, 0x7e, 0xd3) }
        } else {
            if private { (0x02, 0x57, 0x50, 0x48) } else { (0x02, 0x57, 0x54, 0x83) }
        },
        ScriptKind::ShWsh => if !testnet {
            if private { (0x02, 0x95, 0xb0, 0x05) } else { (0x02, 0x95, 0xb4, 0x3f) }
        } else {
            if private { (0x02, 0x42, 0x85, 0xb5) } else { (0x02, 0x42, 0x89, 0xef) }
        },
    }
}

fn same_version(a: Version, b: Version) -> (r: bool)
    ensures
        r == (a == b),
{
    a.0 == b.0 && a.1 == b.1 && a.2 == b.2 && a.3 == b.3
}

fn read_version(p: &Vec<u8>) -> (r: Version)
    requires
        p@.len() >= 4,
    ensures
        r == version_of(p@),
{
    (p[0], p[1], p[2], p[3])
}

/// Which (private, testnet) pair the plain version of `p` stands for.
pub(crate) fn standard_class_of(p: &Vec<u8>) -> (r: Option<(bool, bool)>)
    requires
        p@.len() >= 4,
    ensures
        r == standard_class(version_of(p@)),
{
    let v = read_version(p);
    if same_version(v, standard_version_exec(true, false)) {
        Some((true, false))
    } else if same_version(v, standard_version_exec(false, false)) {
        Some((false, false))
    } else if same_version(v, standard_version_exec(true, true)) {
        Some((true, true))
    } else if same_version(v, standard_version_exec(false, true)) {
        Some((false, true))
    } else {
        None
    }
}

/// The kind whose tag for (private, testnet) is `v`, if any.
fn kind_with_tag(v: Version, private: bool, testnet: bool) -> (r: Option<ScriptKind>)
    ensures
        match r {
            Some(k) => tagged_version(k, private, testnet) == v,
            None => forall|k: ScriptKind| tagged_version(k, private, testnet) != v,
        },
{
    let kinds = [
        ScriptKind::Pkh,
        ScriptKind::Wpkh,
        ScriptKind::ShWpkh,
        ScriptKind::Wsh,
        ScriptKind::ShWsh,
    ];
    let mut i: usize = 0;
    while i < 5
        invariant
            i <= 5,
            kinds@ == seq![
                ScriptKind::Pkh,
                ScriptKind::Wpkh,
                ScriptKind::ShWpkh,
                ScriptKind::Wsh,
                ScriptKind::ShWsh,
            ],
            forall|j: int| 0 <= j < i ==> tagged_version(kinds@[j], private, testnet) != v,
        decreases 5 - i,
    {
        if same_version(v, tagged_version_exec(kinds[i], private, testnet)) {
            return Some(kinds[i]);
        }
        i = i + 1;
    }
    assert forall|k: ScriptKind| tagged_version(k, private, testnet) != v by {
        match k {
            ScriptKind::Pkh => assert(kinds@[0] == k),
            ScriptKind::Wpkh => assert(kinds@[1] == k),
            ScriptKind::ShWpkh => assert(kinds@[2] == k),
            ScriptKind::Wsh => assert(kinds@[3] == k),
            ScriptKind::ShWsh => assert(kinds@[4] == k),
        }
    }
    None
}

/// The (kind, private, testnet) triple whose tag is `v`, if any.
fn tag_class(v: Version) -> (r: Option<(ScriptKind, bool, bool)>)
    ensures
        match r {
            Some((k, pr, t)) => tagged_version(k, pr, t) == v,
            None => !is_tag(v),
        },
{
    let pairs = [(true, false), (false, false), (true, true), (false, true)];
    let mut i: usize = 0;
    while i < 4
        invariant
            i <= 4,
            pairs@ == seq![(true, false), (false, false), (true, true), (false, true)],
            forall|j: int, k: ScriptKind|
                0 <= j < i ==> tagged_version(k, pairs@[j].0, pairs@[j].1) != v,
        decreases 4 - i,
    {
        let (pr, t) = pairs[i];
        match kind_with_tag(v, pr, t) {
            Some(k) => {
                return Some((k, pr, t));
            },
            None => {},
        }
        i = i + 1;
    }
    assert forall|k: ScriptKind, pr: bool, t: bool| tagged_version(k, pr, t) != v by {
        if pr && !t {
            assert(pairs@[0] == (pr, t));
            assert(tagged_version(k, pairs@[0].0, pairs@[0].1) != v);
        } else if !pr && !t {
            assert(pairs@[1] == (pr, t));
            assert(tagged_version(k, pairs@[1].0, pairs@[1].1) != v);
        } else if pr && t {
            assert(pairs@[2] == (pr, t));
            assert(tagged_version(k, pairs@[2].0, pairs@[2].1) != v);
        } else {
            assert(pairs@[3] == (pr, t));
            assert(tagged_version(k, pairs@[3].0, pairs@[3].1) != v);
        }
    }
    None
}

/// `p` with its version replaced by `v`.
fn replace_version(p: &Vec<u8>, v: Version) -> (r: Vec<u8>)
    requires
        p@.len() >= 4,
    ensures
        r@ == with_version(p@, v),
{
    let mut r: Vec<u8> = vec![v.0, v.1, v.2, v.3];
    let mut i: usize = 4;
    while i < p.len()
        invariant
            4 <= i <= p@.len(),
            r@ == seq![v.0, v.1, v.2, v.3] + p@.subrange(4, i as int),
        decreases p@.len() - i,
    {
        r.push(p[i]);
        i = i + 1;
        assert(p@.subrange(4, i as int) == p@.subrange(4, i - 1 as int).push(p@[i - 1]));
    }
    r
}

proof fn lemma_tag_injective(k1: ScriptKind, p1: bool, t1: bool, k2: ScriptKind, p2: bool, t2: bool)
    requires
        tagged_version(k1, p1, t1) == tagged_version(k2, p2, t2),
    ensures
        k1 == k2 && p1 == p2 && t1 == t2,
{
}

/// Re-tagging standard key data and reading the tag back gives the data and
/// the kind again.
pub proof fn lemma_payload_round_trip(p: Seq<u8>, kind: ScriptKind)
    requires
        tag_payload(p, kind) is Some,
    ensures
        untag_payload(tag_payload(p, kind)->0) == Some((p, kind)),
{
    let (pr, t) = standard_class(version_of(p))->0;
    let q = with_version(p, tagged_version(kind, pr, t));
    assert(version_of(q) == tagged_version(kind, pr, t));
    assert(is_tag(version_of(q)));
    let (k2, pr2, t2) = choose|k: ScriptKind, pr: bool, t: bool|
        tagged_version(k, pr, t) == version_of(q);
    lemma_tag_injective(k2, pr2, t2, kind, pr, t);
    assert(version_of(p) == standard_version(pr, t));
    assert(with_version(q, standard_version(pr, t)) =~= p);
}

/// Standard key data re-tagged for `kind`.
pub(crate) fn tag_data(p: &Vec<u8>, kind: ScriptKind) -> (r: Option<Vec<u8>>)
    ensures
        match r {
            Some(q) => tag_payload(p@, kind) == Some(q@),
            None => tag_payload(p@, kind) is None,
        },
{
    if p.len() != KEY_LEN {
        return None;
    }
    match standard_class_of(p) {
        Some((pr, t)) => Some(replace_version(p, tagged_version_exec(kind, pr, t))),
        None => None,
    }
}

/// Tagged key data back to standard data, with its kind.
fn untag_data(p: &Vec<u8>) -> (r: Option<(Vec<u8>, ScriptKind)>)
    ensures
        match r {
            Some((q, k)) => untag_payload(p@) == Some((q@, k)),
            None => untag_payload(p@) is None,
        },
{
    if p.len() != KEY_LEN {
        return None;
    }
    let v = read_version(p);
    match tag_class(v) {
        Some((k, pr, t)) => {
            proof {
                let (k2, pr2, t2) = choose|k: ScriptKind, pr: bool, t: bool|
                    tagged_version(k, pr, t) == version_of(p@);
                lemma_tag_injective(k2, pr2, t2, k, pr, t);
            }
            Some((replace_version(p, standard_version_exec(pr, t)), k))
        },
        None => None,
    }
}

/// The base58check text `raw` of a standard key, re-encoded with the tag of
/// `kind`. Decoding the result gives `raw` and `kind` back.
pub fn encode_chars(raw: &Vec<char>, kind: ScriptKind) -> (r: Result<Vec<char>, CodecError>)
    ensures
        match r {
            Ok(t) => encode_spec(raw@, kind) == Ok::<Seq<char>, CodecError>(t@)
                && decode_spec(t@) == Ok::<(Seq<char>, ScriptKind), CodecError>((raw@, kind)),
            Err(e) => encode_spec(raw@, kind) == Err::<Seq<char>, CodecError>(e),
        },
{
    let p = match base58check_decode(raw) {
        Some(p) => p,
        None => return Err(CodecError::MalformedBase58),
    };
    if p.len() != KEY_LEN {
        return Err(CodecError::MalformedBase58);
    }
    match tag_data(&p, kind) {
        Some(q) => {
            let t = base58check_encode(&q);
            proof {
                lemma_payload_round_trip(p@, kind);
            }
            Ok(t)
        },
        None => Err(CodecError::UnknownVersion),
    }
}

/// The tagged key text `tagged` as standard base58check text, with the
/// script kind its tag names.
pub fn decode_chars(tagged: &Vec<char>) -> (r: Result<(Vec<char>, ScriptKind), CodecError>)
    ensures
        match r {
            Ok((t, k)) => decode_spec(tagged@) == Ok::<(Seq<char>, ScriptKind), CodecError>((t@, k)),
            Err(e) => decode_spec(tagged@) == Err::<(Seq<char>, ScriptKind), CodecError>(e),
        },
{
    let p = match base58check_decode(tagged) {
        Some(p) => p,
        None => return Err(CodecError::MalformedBase58),
    };
    if p.len() != KEY_LEN {
        return Err(CodecError::MalformedBase58);
    }
    match untag_data(&p) {
        Some((q, k)) => Ok((base58check_encode(&q), k)),
        None => Err(CodecError::UnknownVersion),
    }
}

/// Re-encodes a standard extended key text with the tag of `kind`.
pub fn encode(raw: &str, kind: ScriptKind) -> (r: Result<String, CodecError>)
    ensures
        match r {
            Ok(t) => encode_spec(raw@, kind) == Ok::<Seq<char>, CodecError>(t@)
                && decode_spec(t@) == Ok::<(Seq<char>, ScriptKind), CodecError>((raw@, kind)),
            Err(e) => encode_spec(raw@, kind) == Err::<Seq<char>, CodecError>(e),
        },
{
    let chars = crate::text::chars_of(raw);
    match encode_chars(&chars, kind) {
        Ok(t) => Ok(crate::text::string_of(&t)),
        Err(e) => Err(e),
    }
}

/// Turns a tagged extended key text into standard text and its script kind.
pub fn decode(tagged: &str) -> (r: Result<(String, ScriptKind), CodecError>)
    ensures
        match r {
            Ok((t, k)) => decode_spec(tagged@) == Ok::<(Seq<char>, ScriptKind), CodecError>((t@, k)),
            Err(e) => decode_spec(tagged@) == Err::<(Seq<char>, ScriptKind), CodecError>(e),
        },
{
    let chars = crate::text::chars_of(tagged);
    match decode_chars(&chars) {
        Ok((t, k)) => Ok((crate::text::string_of(&t), k)),
        Err(e) => Err(e),
    }
}

} // verus!
