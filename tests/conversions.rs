use bitcoin::secp256k1::Secp256k1;
use bitcoin::util::bip32::{ExtendedPrivKey, ExtendedPubKey};
use bitcoin::Network;
use electrum_wallet::codec::{decode, encode, CodecError};
use electrum_wallet::document::FieldValue;
use electrum_wallet::fields::{classify_field, keystore_field_name, FieldKind, Shape};
use electrum_wallet::{Addresses, ElectrumWalletFile, Keystore, ScriptKind, WalletError, WalletType};

const ALL_KINDS: [ScriptKind; 5] = [
    ScriptKind::Pkh,
    ScriptKind::Wpkh,
    ScriptKind::ShWpkh,
    ScriptKind::Wsh,
    ScriptKind::ShWsh,
];

fn keys(seed: u8, network: Network) -> (String, String) {
    let secp = Secp256k1::new();
    let xprv = ExtendedPrivKey::new_master(network, &[seed; 32]).unwrap();
    let xpub = ExtendedPubKey::from_priv(&secp, &xprv);
    (xprv.to_string(), xpub.to_string())
}

fn xpub(seed: u8) -> String {
    keys(seed, Network::Bitcoin).1
}

fn xprv(seed: u8) -> String {
    keys(seed, Network::Bitcoin).0
}

#[test]
fn encode_then_decode_gives_key_and_kind_back() {
    for seed in 1..4u8 {
        for key in [xpub(seed), xprv(seed), keys(seed, Network::Testnet).1] {
            for kind in ALL_KINDS {
                let tagged = encode(&key, kind).unwrap();
                assert_eq!(decode(&tagged).unwrap(), (key.clone(), kind));
            }
        }
    }
}

#[test]
fn encode_uses_the_tag_of_the_kind() {
    let key = xpub(7);
    assert_eq!(encode(&key, ScriptKind::Pkh).unwrap(), key);
    assert!(encode(&key, ScriptKind::Wpkh).unwrap().starts_with("zpub"));
    assert!(encode(&key, ScriptKind::ShWpkh).unwrap().starts_with("ypub"));
    assert!(encode(&key, ScriptKind::Wsh).unwrap().starts_with("Zpub"));
    assert!(encode(&key, ScriptKind::ShWsh).unwrap().starts_with("Ypub"));
    assert!(encode(&xprv(7), ScriptKind::Wpkh).unwrap().starts_with("zprv"));
    assert!(encode(&keys(7, Network::Testnet).1, ScriptKind::Wpkh).unwrap().starts_with("vpub"));
}

#[test]
fn codec_errors() {
    assert_eq!(encode("notbase58!", ScriptKind::Pkh), Err(CodecError::MalformedBase58));
    let key = xpub(3);
    let mut broken: Vec<char> = key.chars().collect();
    let last = broken.len() - 1;
    broken[last] = if broken[last] == 'a' { 'b' } else { 'a' };
    let broken: String = broken.into_iter().collect();
    assert_eq!(encode(&broken, ScriptKind::Pkh), Err(CodecError::MalformedBase58));
    let zpub = encode(&key, ScriptKind::Wpkh).unwrap();
    assert_eq!(encode(&zpub, ScriptKind::Wpkh), Err(CodecError::UnknownVersion));
    let short = bitcoin::util::base58::check_encode_slice(&[1, 2, 3]);
    assert_eq!(decode(&short), Err(CodecError::MalformedBase58));
}

#[test]
fn single_descriptors_round_trip() {
    let templates = [
        ("pkh(", ")"),
        ("wpkh(", ")"),
        ("sh(wpkh(", "))"),
        ("wsh(", ")"),
        ("sh(wsh(", "))"),
    ];
    for key in [xpub(1), xprv(2)] {
        for (open, close) in templates {
            let d = format!("{}{}/0/*{}", open, key, close);
            let w = ElectrumWalletFile::from_descriptor(&d).unwrap();
            assert_eq!(w.wallet_type, WalletType::Standard);
            assert_eq!(w.keystores.len(), 1);
            let out = w.to_descriptors().unwrap();
            assert_eq!(out, vec![d.clone(), d.replace("/0/*", "/1/*")]);
        }
    }
}

#[test]
fn legacy_single_key_scenario() {
    let key = xpub(9);
    let d = format!("pkh({}/0/*)", key);
    let w = ElectrumWalletFile::from_descriptor(&d).unwrap();
    assert_eq!(w.wallet_type, WalletType::Standard);
    assert_eq!(w.keystores.len(), 1);
    assert_eq!(w.keystores[0].xpub, encode(&key, ScriptKind::Pkh).unwrap());
    assert_eq!(w.keystores[0].xprv, None);
    assert_eq!(w.keystores[0].key_type, "bip32");
    assert!(w.addresses.change.is_empty() && w.addresses.receiving.is_empty());
    assert_eq!(
        w.to_descriptors().unwrap(),
        vec![format!("pkh({}/0/*)", key), format!("pkh({}/1/*)", key)]
    );
}

#[test]
fn native_multisig_scenario() {
    let (x1, x2, x3) = (xpub(1), xpub(2), xpub(3));
    let d = format!("wsh(sortedmulti(2,{}/0/*,{}/0/*,{}/0/*))", x1, x2, x3);
    let w = ElectrumWalletFile::from_descriptor(&d).unwrap();
    assert_eq!(w.wallet_type, WalletType::Multisig(2, 3));
    assert_eq!(w.keystores.len(), 3);
    for (ks, x) in w.keystores.iter().zip([&x1, &x2, &x3]) {
        assert_eq!(decode(&ks.xpub).unwrap(), (x.clone(), ScriptKind::Wsh));
    }
    assert_eq!(w.to_descriptors().unwrap(), vec![d.clone(), d.replace("/0/*", "/1/*")]);
}

#[test]
fn legacy_and_wrapped_multisig() {
    let (x1, x2) = (xpub(4), xprv(5));
    let d = format!("sh(sortedmulti(1,{}/0/*,{}/0/*))", x1, x2);
    let w = ElectrumWalletFile::from_descriptor(&d).unwrap();
    assert_eq!(w.wallet_type, WalletType::Multisig(1, 2));
    assert_eq!(decode(&w.keystores[0].xpub).unwrap().1, ScriptKind::Pkh);
    assert!(w.keystores[1].xprv.is_some());
    assert_eq!(w.to_descriptors().unwrap()[0], d);
    let d = format!("sh(wsh(sortedmulti(2,{}/0/*,{}/0/*)))", x1, x2);
    let w = ElectrumWalletFile::from_descriptor(&d).unwrap();
    assert_eq!(decode(&w.keystores[0].xpub).unwrap().1, ScriptKind::ShWsh);
    assert_eq!(w.to_descriptors().unwrap(), vec![d.clone(), d.replace("/0/*", "/1/*")]);
}

#[test]
fn rendering_is_idempotent() {
    let d = format!("sh(wsh(sortedmulti(2,{}/0/*,{}/0/*,{}/0/*)))", xpub(1), xprv(2), xpub(3));
    let first = ElectrumWalletFile::from_descriptor(&d).unwrap().to_descriptors().unwrap();
    let again = ElectrumWalletFile::from_descriptor(&first[0]).unwrap().to_descriptors().unwrap();
    assert_eq!(first, again);
    let d = format!("sh(wpkh({}/0/*))", xprv(8));
    let first = ElectrumWalletFile::from_descriptor(&d).unwrap().to_descriptors().unwrap();
    let again = ElectrumWalletFile::from_descriptor(&first[0]).unwrap().to_descriptors().unwrap();
    assert_eq!(first, again);
}

#[test]
fn multisig_with_one_key_is_refused() {
    let d = format!("wsh(sortedmulti(1,{}/0/*))", xpub(1));
    assert_eq!(ElectrumWalletFile::from_descriptor(&d).unwrap_err().kind, WalletError::InsufficientSigners);
}

#[test]
fn malformed_descriptors_are_refused() {
    let x = xpub(1);
    let bad = [
        format!("wsh(sortedmulti(2,{}/0/*,{}/0/*)", x, x),
        format!("tr(sortedmulti(2,{}/0/*,{}/0/*))", x, x),
        format!("foo({}/0/*)", x),
        format!("pkh({}/1/*)", x),
        format!("pkh({}/0/*", x),
        format!("wsh(sortedmulti(0,{}/0/*,{}/0/*))", x, x),
        format!("wpkh(sortedmulti(2,{}/0/*,{}/0/*))", x, x),
        String::new(),
    ];
    for d in bad {
        assert_eq!(
            ElectrumWalletFile::from_descriptor(&d).unwrap_err().kind,
            WalletError::UnrecognizedDescriptor,
            "{}",
            d
        );
    }
}

#[test]
fn invalid_key_in_descriptor() {
    let d = "pkh(xpubNotAKey/0/*)";
    assert_eq!(ElectrumWalletFile::from_descriptor(d).unwrap_err().kind, WalletError::InvalidExtendedKey);
}

#[test]
fn threshold_is_not_checked_against_key_count() {
    let d = format!("wsh(sortedmulti(5,{}/0/*,{}/0/*))", xpub(1), xpub(2));
    let w = ElectrumWalletFile::from_descriptor(&d).unwrap();
    assert_eq!(w.wallet_type, WalletType::Multisig(5, 2));
}

#[test]
fn private_key_keystore_holds_derived_public_key() {
    let (prv, publ) = keys(6, Network::Bitcoin);
    let ks = Keystore::new(ScriptKind::Wpkh, &prv).unwrap();
    assert_eq!(ks.xprv, Some(encode(&prv, ScriptKind::Wpkh).unwrap()));
    assert_eq!(ks.xpub, encode(&publ, ScriptKind::Wpkh).unwrap());
    let h = ks.get_xkey().unwrap();
    assert_eq!((h.key, h.kind), (prv, ScriptKind::Wpkh));
    let ks = Keystore::new(ScriptKind::Wsh, &publ).unwrap();
    assert_eq!(ks.xprv, None);
    let h = ks.get_xkey().unwrap();
    assert_eq!((h.key, h.kind), (publ, ScriptKind::Wsh));
}

#[test]
fn keystore_errors() {
    assert_eq!(Keystore::new(ScriptKind::Pkh, "xpub").unwrap_err().kind, WalletError::InvalidExtendedKey);
    let ks = Keystore { key_type: Keystore::default_type(), xprv: None, xpub: "garbage".to_string() };
    assert_eq!(ks.get_xkey().unwrap_err().kind, WalletError::InvalidExtendedKey);
}

#[test]
fn to_descriptors_errors() {
    let w = ElectrumWalletFile {
        addresses: Addresses::new(),
        wallet_type: WalletType::Standard,
        keystores: vec![],
    };
    assert_eq!(w.to_descriptors().unwrap_err().kind, WalletError::InvalidExtendedKey);
    let ks = Keystore::new(ScriptKind::Wpkh, &xpub(1)).unwrap();
    let w = ElectrumWalletFile {
        addresses: Addresses::new(),
        wallet_type: WalletType::Multisig(1, 2),
        keystores: vec![ks.clone(), ks],
    };
    assert_eq!(w.to_descriptors().unwrap_err().kind, WalletError::UnknownScriptKind);
}

#[test]
fn multisig_with_large_threshold_renders_decimal() {
    let ks = Keystore::new(ScriptKind::Wsh, &xpub(1)).unwrap();
    let w = ElectrumWalletFile {
        addresses: Addresses::new(),
        wallet_type: WalletType::Multisig(12, 2),
        keystores: vec![ks.clone(), ks],
    };
    let x = xpub(1);
    assert_eq!(
        w.to_descriptors().unwrap()[1],
        format!("wsh(sortedmulti(12,{}/1/*,{}/1/*))", x, x)
    );
}

#[test]
fn wallet_type_text() {
    assert_eq!(WalletType::parse("standard").map_err(|e| e.kind), Ok(WalletType::Standard));
    assert_eq!(WalletType::parse("2of3").map_err(|e| e.kind), Ok(WalletType::Multisig(2, 3)));
    assert_eq!(WalletType::parse("02of03").map_err(|e| e.kind), Ok(WalletType::Multisig(2, 3)));
    assert_eq!(WalletType::parse("255of255").map_err(|e| e.kind), Ok(WalletType::Multisig(255, 255)));
    assert_eq!(WalletType::Multisig(2, 3).to_text(), "2of3");
    assert_eq!(WalletType::Multisig(100, 7).to_text(), "100of7");
    assert_eq!(WalletType::Standard.to_text(), "standard");
    for w in [WalletType::Standard, WalletType::Multisig(1, 2), WalletType::Multisig(255, 10)] {
        assert_eq!(WalletType::parse(&w.to_text()).map_err(|e| e.kind), Ok(w));
    }
    for bad in ["", "2of", "of3", "256of3", "2x3", "Standard", "2of3 ", "standard2"] {
        assert_eq!(WalletType::parse(bad).map_err(|e| e.kind), Err(WalletError::UnrecognizedWalletType), "{}", bad);
    }
}

#[test]
fn field_classification() {
    assert_eq!(classify_field("keystore"), FieldKind::Keystore);
    assert_eq!(classify_field("x1/"), FieldKind::Keystore);
    assert_eq!(classify_field("x12/"), FieldKind::Keystore);
    assert_eq!(classify_field("addresses"), FieldKind::Addresses);
    assert_eq!(classify_field("wallet_type"), FieldKind::WalletType);
    assert_eq!(classify_field("labels"), FieldKind::Ignored(Shape::TextMap));
    assert_eq!(classify_field("addr_history"), FieldKind::Ignored(Shape::AddressHistory));
    assert_eq!(classify_field("winpos-qt"), FieldKind::Ignored(Shape::WindowPosition));
    assert_eq!(classify_field("use_change"), FieldKind::Ignored(Shape::Bool));
    assert_eq!(classify_field("seed_version"), FieldKind::Ignored(Shape::Number));
    assert_eq!(classify_field("seed_type"), FieldKind::Ignored(Shape::Text));
    assert_eq!(classify_field("qt-console-history"), FieldKind::Ignored(Shape::List));
    for bad in ["x/", "x1", "xa/", "y1/", "keystores", "unknown", ""] {
        assert_eq!(classify_field(bad), FieldKind::Unrecognized, "{}", bad);
    }
}

#[test]
fn keystore_field_names() {
    assert_eq!(keystore_field_name(1), "x1/");
    assert_eq!(keystore_field_name(12), "x12/");
    assert_eq!(keystore_field_name(255), "x255/");
    for p in [1u8, 9, 10, 99, 100, 255] {
        assert_eq!(classify_field(&keystore_field_name(p)), FieldKind::Keystore);
    }
}

#[test]
fn defaults() {
    let a = Addresses::new();
    assert!(a.change.is_empty() && a.receiving.is_empty());
    assert_eq!(Keystore::default_type(), "bip32");
}

fn text_fields(fields: &[(String, FieldValue)]) -> Vec<(String, String)> {
    fields
        .iter()
        .map(|(n, v)| {
            let shown = match v {
                FieldValue::Keystore(k) => format!("{} {:?} {}", k.key_type, k.xprv, k.xpub),
                FieldValue::Addresses(a) => format!("{:?} {:?}", a.change, a.receiving),
                FieldValue::Text(t) => t.clone(),
                FieldValue::Skipped => "skipped".to_string(),
            };
            (n.clone(), shown)
        })
        .collect()
}

#[test]
fn document_fields_round_trip() {
    let d = format!("wsh(sortedmulti(2,{}/0/*,{}/0/*,{}/0/*))", xpub(1), xprv(2), xpub(3));
    let mut w = ElectrumWalletFile::from_descriptor(&d).unwrap();
    w.addresses.receiving = vec!["bc1qa".to_string(), "bc1qb".to_string()];
    w.addresses.change = vec!["bc1qc".to_string()];
    let fields = w.written_fields().unwrap();
    let names: Vec<&str> = fields.iter().map(|(n, _)| n.as_str()).collect();
    assert_eq!(names, vec!["addresses", "wallet_type", "x1/", "x2/", "x3/"]);
    let back = ElectrumWalletFile::from_fields(&fields).unwrap();
    assert_eq!(back.wallet_type, WalletType::Multisig(2, 3));
    assert_eq!(back.addresses.receiving, w.addresses.receiving);
    assert_eq!(back.addresses.change, w.addresses.change);
    assert_eq!(text_fields(&back.written_fields().unwrap()), text_fields(&fields));
    assert_eq!(back.to_descriptors().unwrap()[0], d);

    let w = ElectrumWalletFile::from_descriptor(&format!("wpkh({}/0/*)", xpub(4))).unwrap();
    let fields = w.written_fields().unwrap();
    let names: Vec<&str> = fields.iter().map(|(n, _)| n.as_str()).collect();
    assert_eq!(names, vec!["addresses", "wallet_type", "keystore"]);
    let back = ElectrumWalletFile::from_fields(&fields).unwrap();
    assert_eq!(text_fields(&back.written_fields().unwrap()), text_fields(&fields));
}

#[test]
fn document_field_order_decides_signer_order() {
    let k1 = Keystore::new(ScriptKind::Wsh, &xpub(1)).unwrap();
    let k2 = Keystore::new(ScriptKind::Wsh, &xpub(2)).unwrap();
    let fields = vec![
        ("x2/".to_string(), FieldValue::Keystore(k2.clone())),
        ("labels".to_string(), FieldValue::Skipped),
        ("wallet_type".to_string(), FieldValue::Text("1of2".to_string())),
        ("x1/".to_string(), FieldValue::Keystore(k1.clone())),
    ];
    let w = ElectrumWalletFile::from_fields(&fields).unwrap();
    assert_eq!(w.wallet_type, WalletType::Multisig(1, 2));
    assert_eq!(w.keystores[0].xpub, k2.xpub);
    assert_eq!(w.keystores[1].xpub, k1.xpub);
    assert!(w.addresses.change.is_empty());
}

#[test]
fn document_field_errors() {
    let unknown = vec![("mystery".to_string(), FieldValue::Skipped)];
    assert_eq!(ElectrumWalletFile::from_fields(&unknown).unwrap_err().kind, WalletError::UnrecognizedField);
    let wrong = vec![("keystore".to_string(), FieldValue::Text("x".to_string()))];
    assert_eq!(ElectrumWalletFile::from_fields(&wrong).unwrap_err().kind, WalletError::MalformedDocument);
    let bad_type = vec![("wallet_type".to_string(), FieldValue::Text("3-of-5".to_string()))];
    assert_eq!(
        ElectrumWalletFile::from_fields(&bad_type).unwrap_err().kind,
        WalletError::UnrecognizedWalletType
    );
    let mut w = ElectrumWalletFile::empty();
    assert!(w.accept_field("use_change", &FieldValue::Skipped).is_ok());
    assert!(w.keystores.is_empty());
    assert_eq!(w.written_fields().unwrap_err(), WalletError::MalformedDocument);
}

#[test]
fn invalid_key_material_is_refused() {
    let mut data = bitcoin::util::base58::from_check(&xpub(2)).unwrap();
    data[45] = 0x05;
    let bad_point = bitcoin::util::base58::check_encode_slice(&data);
    assert_eq!(Keystore::new(ScriptKind::Wpkh, &bad_point).unwrap_err().kind, WalletError::InvalidExtendedKey);
    let mut data = bitcoin::util::base58::from_check(&xprv(2)).unwrap();
    for b in data[46..78].iter_mut() {
        *b = 0;
    }
    let bad_secret = bitcoin::util::base58::check_encode_slice(&data);
    assert_eq!(Keystore::new(ScriptKind::Wpkh, &bad_secret).unwrap_err().kind, WalletError::InvalidExtendedKey);
    assert_eq!(
        ElectrumWalletFile::from_descriptor(&format!("wpkh({}/0/*)", bad_secret)).unwrap_err().kind,
        WalletError::InvalidExtendedKey
    );
}

#[test]
fn multi_digit_thresholds() {
    let (x1, x2) = (xpub(1), xpub(2));
    let d = format!("wsh(sortedmulti(10,{}/0/*,{}/0/*))", x1, x2);
    let w = ElectrumWalletFile::from_descriptor(&d).unwrap();
    assert_eq!(w.wallet_type, WalletType::Multisig(10, 2));
    assert_eq!(w.to_descriptors().unwrap(), vec![d.clone(), d.replace("/0/*", "/1/*")]);
    let d = format!("sh(wsh(sortedmulti(255,{}/0/*,{}/0/*)))", x1, x2);
    assert_eq!(ElectrumWalletFile::from_descriptor(&d).unwrap().wallet_type, WalletType::Multisig(255, 2));
    let one = format!("wsh(sortedmulti(10,{}/0/*))", x1);
    assert_eq!(ElectrumWalletFile::from_descriptor(&one).unwrap_err().kind, WalletError::InsufficientSigners);
    for bad in ["256", "010", "0", ""] {
        let d = format!("wsh(sortedmulti({},{}/0/*,{}/0/*))", bad, x1, x2);
        assert_eq!(
            ElectrumWalletFile::from_descriptor(&d).unwrap_err().kind,
            WalletError::UnrecognizedDescriptor,
            "{}",
            d
        );
    }
}

#[test]
fn errors_name_the_offending_text() {
    let good = xpub(1);
    let d = format!("wsh(sortedmulti(2,{}/0/*,xpubBroken/0/*))", good);
    let e = ElectrumWalletFile::from_descriptor(&d).unwrap_err();
    assert_eq!((e.kind, e.context.as_str()), (WalletError::InvalidExtendedKey, "xpubBroken"));
    let e = ElectrumWalletFile::from_descriptor("pkh(nokey)").unwrap_err();
    assert_eq!((e.kind, e.context.as_str()), (WalletError::UnrecognizedDescriptor, "pkh(nokey)"));
    let e = Keystore::new(ScriptKind::Pkh, "xpubX").unwrap_err();
    assert_eq!(e.context, "xpubX");
    let e = WalletType::parse("3-of-5").unwrap_err();
    assert_eq!((e.kind, e.context.as_str()), (WalletError::UnrecognizedWalletType, "3-of-5"));
    let fields = vec![("mystery".to_string(), FieldValue::Skipped)];
    assert_eq!(ElectrumWalletFile::from_fields(&fields).unwrap_err().context, "mystery");
    let ks = Keystore { key_type: Keystore::default_type(), xprv: Some("bad".to_string()), xpub: good };
    let e = ks.get_xkey().unwrap_err();
    assert_eq!((e.kind, e.context.as_str()), (WalletError::InvalidExtendedKey, "bad"));
    let w = ElectrumWalletFile { addresses: Addresses::new(), wallet_type: WalletType::Standard, keystores: vec![ks] };
    assert_eq!(w.to_descriptors().unwrap_err().context, "bad");
}
