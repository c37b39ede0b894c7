//! The quorum policy of a wallet and its text form (`standard`, `2of3`).
use crate::decimal::{
    all_dec_digits, dec_digit_value, decimal, decimal_exec, decimal_value, digit, is_dec_digit,
    lemma_decimal_digits, small_decimal,
};
use crate::error::{ConversionError, WalletError};
use crate::text::{chars_of, has_at, push_all, string_of};
use vstd::prelude::*;

verus! {

/// A single-key wallet, or an m-of-n multisig group.
#[derive(Clone, Copy, Debug, PartialEq, Eq, Structural)]
pub enum WalletType {
    Standard,
    Multisig(u8, u8),
}

pub open spec fn standard_text() -> Seq<char> {
    seq!['s', 't', 'a', 'n', 'd', 'a', 'r', 'd']
}

/// `<m>of<n>` split at position `i`.
pub open spec fn quorum_split(s: Seq<char>, i: int) -> bool {
    &&& 0 < i
    &&& i + 2 < s.len()
    &&& all_dec_digits(s.take(i))
    &&& s[i] == 'o'
    &&& s[i + 1] == 'f'
    &&& all_dec_digits(s.skip(i + 2))
}

/// The wallet type that a text names: `standard`, or `<digits>of<digits>`
/// with both numbers below 256.
pub open spec fn wallet_type_of(s: Seq<char>) -> Option<WalletType> {
    if s == standard_text() {
        Some(WalletType::Standard)
    } else if exists|i: int| quorum_split(s, i) {
        let i = choose|i: int| quorum_split(s, i);
        let m = decimal_value(s.take(i));
        let n = decimal_value(s.skip(i + 2));
        if m <= 255 && n <= 255 {
            Some(WalletType::Multisig(m as u8, n as u8))
        } else {
            None
        }
    } else {
        None
    }
}

/// The text form of a wallet type, numbers in canonical decimal.
pub open spec fn wallet_type_text(w: WalletType) -> Seq<char> {
    match w {
        WalletType::Standard => standard_text(),
        WalletType::Multisig(m, n) => decimal(m as nat) + seq!['o', 'f'] + decimal(n as nat),
    }
}

proof fn lemma_split_unique(s: Seq<char>, i: int, j: int)
    requires
        quorum_split(s, i),
        quorum_split(s, j),
    ensures
        i == j,
{
    assert(forall|x: nat| x < 10 ==> #[trigger] digit(x) != 'o');
    if i < j {
        assert(s.take(j)[i] == s[i]);
        assert(is_dec_digit(s.take(j)[i]));
    }
    if j < i {
        assert(s.take(i)[j] == s[j]);
        assert(is_dec_digit(s.take(i)[j]));
    }
}

/// Reading the text form of a wallet type gives the wallet type back.
pub proof fn lemma_wallet_type_round_trip(w: WalletType)
    ensures
        wallet_type_of(wallet_type_text(w)) == Some(w),
{
    match w {
        WalletType::Standard => {},
        WalletType::Multisig(m, n) => {
            let s = wallet_type_text(w);
            let a = decimal(m as nat);
            let b = decimal(n as nat);
            lemma_decimal_digits(m as nat);
            lemma_decimal_digits(n as nat);
            let l = a.len() as int;
            assert(s.take(l) =~= a);
            assert(s.skip(l + 2) =~= b);
            assert(s[l] == 'o' && s[l + 1] == 'f');
            assert(quorum_split(s, l));
            let i = choose|i: int| quorum_split(s, i);
            lemma_split_unique(s, i, l);
            assert(forall|x: nat| x < 10 ==> #[trigger] digit(x) != 's');
            assert(s[0] == a[0]);
            assert(is_dec_digit(a[0]));
            assert(s != standard_text());
        },
    }
}

impl WalletType {
    /// Reads `standard` or `<m>of<n>`.
    pub fn parse(text: &str) -> (r: Result<WalletType, ConversionError>)
        ensures
            match r {
                Ok(w) => wallet_type_of(text@) == Some(w),
                Err(e) => wallet_type_of(text@) is None && e.kind == WalletError::UnrecognizedWalletType
                    && e.context@ == text@,
            },
    {
        let s = chars_of(text);
        let std = vec!['s', 't', 'a', 'n', 'd', 'a', 'r', 'd'];
        assert(std@ =~= standard_text());
        if s.len() == 8 && has_at(&s, 0, &std) {
            assert(s@ =~= s@.subrange(0, 8));
            return Ok(WalletType::Standard);
        }
        proof {
            if s@ == standard_text() {
                assert(s@.subrange(0, 8) =~= std@);
            }
        }
        let mut i: usize = 0;
        while i < s.len() && dec_digit_value(s[i]).is_some()
            invariant
                i <= s@.len(),
                forall|k: int| 0 <= k < i ==> is_dec_digit(#[trigger] s@[k]),
            decreases s@.len() - i,
        {
            i = i + 1;
        }
        proof {
            assert forall|j: int| quorum_split(s@, j) implies j == i by {
                assert(forall|x: nat| x < 10 ==> #[trigger] digit(x) != 'o');
                if j < i {
                    assert(is_dec_digit(s@[j]));
                }
                if i < j {
                    assert(s@.take(j)[i as int] == s@[i as int]);
                    assert(is_dec_digit(s@.take(j)[i as int]));
                }
            }
        }
        if i == 0 || s.len() - i <= 2 || s[i] != 'o' || s[i + 1] != 'f' {
            return Err(ConversionError::on(WalletError::UnrecognizedWalletType, &s));
        }
        let m = small_decimal(&s, 0, i);
        let n = small_decimal(&s, i + 2, s.len());
        proof {
            assert(s@.take(i as int) =~= s@.subrange(0, i as int));
            assert(s@.skip(i + 2) =~= s@.subrange(i + 2, s@.len() as int));
            assert(all_dec_digits(s@.take(i as int))) by {
                assert forall|k: int| 0 <= k < i implies is_dec_digit(#[trigger] s@.take(i as int)[k]) by {
                    assert(s@.take(i as int)[k] == s@[k]);
                }
            }
        }
        match (m, n) {
            (Some(m), Some(n)) => {
                proof {
                    assert(quorum_split(s@, i as int));
                }
                Ok(WalletType::Multisig(m, n))
            },
            _ => Err(ConversionError::on(WalletError::UnrecognizedWalletType, &s)),
        }
    }

    /// The text form: `standard`, or `<m>of<n>` in canonical decimal.
    pub fn to_text(&self) -> (r: String)
        ensures
            r@ == wallet_type_text(*self),
    {
        match *self {
            WalletType::Standard => {
                let std = vec!['s', 't', 'a', 'n', 'd', 'a', 'r', 'd'];
                assert(std@ =~= standard_text());
                string_of(&std)
            },
            WalletType::Multisig(m, n) => {
                let mut t = decimal_exec(m);
                push_all(&mut t, &vec!['o', 'f']);
                push_all(&mut t, &decimal_exec(n));
                assert(t@ =~= wallet_type_text(*self));
                string_of(&t)
            },
        }
    }
}

} // verus!
