//! Decimal digits: canonical rendering of small numbers and reading digit runs.
use vstd::prelude::*;

verus! {

pub open spec fn digit(n: nat) -> char {
    seq!['0', '1', '2', '3', '4', '5', '6', '7', '8', '9'][n as int]
}

pub open spec fn digit_val(c: char) -> nat {
    if c == '1' {
        1
    } else if c == '2' {
        2
    } else if c == '3' {
        3
    } else if c == '4' {
        4
    } else if c == '5' {
        5
    } else if c == '6' {
        6
    } else if c == '7' {
        7
    } else if c == '8' {
        8
    } else if c == '9' {
        9
    } else {
        0
    }
}

pub open spec fn is_dec_digit(c: char) -> bool {
    exists|n: nat| n < 10 && digit(n) == c
}

pub open spec fn all_dec_digits(s: Seq<char>) -> bool {
    forall|i: int| 0 <= i < s.len() ==> is_dec_digit(#[trigger] s[i])
}

/// Canonical decimal text of a number below 1000.
pub open spec fn decimal(n: nat) -> Seq<char> {
    if n < 10 {
        seq![digit(n)]
    } else if n < 100 {
        seq![digit(n / 10), digit(n % 10)]
    } else {
        seq![digit(n / 100), digit((n / 10) % 10), digit(n % 10)]
    }
}

/// The number that a run of decimal digits writes.
pub open spec fn decimal_value(s: Seq<char>) -> nat
    decreases s.len(),
{
    if s.len() == 0 {
        0
    } else {
        decimal_value(s.drop_last()) * 10 + digit_val(s.last())
    }
}

pub(crate) fn digit_exec(n: u8) -> (r: char)
    requires
        n < 10,
    ensures
        r == digit(n as nat),
{
    let ds = ['0', '1', '2', '3', '4', '5', '6', '7', '8', '9'];
    assert(ds@ =~= seq!['0', '1', '2', '3', '4', '5', '6', '7', '8', '9']);
    ds[n as usize]
}

/// Canonical decimal text of `n`.
pub(crate) fn decimal_exec(n: u8) -> (r: Vec<char>)
    ensures
        r@ == decimal(n as nat),
{
    let r = if n < 10 {
        vec![digit_exec(n)]
    } else if n < 100 {
        vec![digit_exec(n / 10), digit_exec(n % 10)]
    } else {
        vec![digit_exec(n / 100), digit_exec((n / 10) % 10), digit_exec(n % 10)]
    };
    assert(r@ =~= decimal(n as nat));
    r
}

/// The value of the digit `c`, if it is one.
pub(crate) fn dec_digit_value(c: char) -> (r: Option<u8>)
    ensures
        match r {
            Some(n) => n < 10 && digit(n as nat) == c && digit_val(c) == n,
            None => !is_dec_digit(c),
        },
{
    let ds = ['0', '1', '2', '3', '4', '5', '6', '7', '8', '9'];
    assert(ds@ =~= seq!['0', '1', '2', '3', '4', '5', '6', '7', '8', '9']);
    let mut n: u8 = 0;
    while n < 10
        invariant
            n <= 10,
            ds@ == seq!['0', '1', '2', '3', '4', '5', '6', '7', '8', '9'],
            forall|j: nat| j < n ==> digit(j) != c,
        decreases 10 - n,
    {
        if ds[n as usize] == c {
            return Some(n);
        }
        n = n + 1;
    }
    None
}

/// Canonical decimal text is digits only, one to three of them, and reads back as the number.
pub proof fn lemma_decimal_digits(n: nat)
    requires
        n <= 255,
    ensures
        all_dec_digits(decimal(n)),
        decimal_value(decimal(n)) == n,
        1 <= decimal(n).len() <= 3,
{
    let d = decimal(n);
    assert(forall|x: nat| x < 10 ==> digit_val(#[trigger] digit(x)) == x);
    assert forall|i: int| 0 <= i < d.len() implies is_dec_digit(#[trigger] d[i]) by {
        if n < 10 {
            assert(digit(n) == d[i]);
        } else if n < 100 {
            if i == 0 { assert(digit(n / 10) == d[i]); } else { assert(digit(n % 10) == d[i]); }
        } else {
            if i == 0 {
                assert(digit(n / 100) == d[i]);
            } else if i == 1 {
                assert(digit((n / 10) % 10) == d[i]);
            } else {
                assert(digit(n % 10) == d[i]);
            }
        }
    }
    let e = Seq::<char>::empty();
    assert(decimal_value(e) == 0);
    if n < 10 {
        assert(d.drop_last() =~= e);
        assert(digit_val(digit(n)) == n);
    } else if n < 100 {
        let d1 = seq![digit(n / 10)];
        assert(d.drop_last() =~= d1);
        assert(d1.drop_last() =~= e);
        assert(digit_val(digit(n / 10)) == n / 10);
        assert(digit_val(digit(n % 10)) == n % 10);
        assert(decimal_value(d1) == n / 10);
        assert(decimal_value(d) == (n / 10) * 10 + n % 10);
    } else {
        let d1 = seq![digit(n / 100)];
        let d2 = seq![digit(n / 100), digit((n / 10) % 10)];
        assert(d.drop_last() =~= d2);
        assert(d2.drop_last() =~= d1);
        assert(d1.drop_last() =~= e);
        assert(digit_val(digit(n / 100)) == n / 100);
        assert(digit_val(digit((n / 10) % 10)) == (n / 10) % 10);
        assert(digit_val(digit(n % 10)) == n % 10);
        assert(decimal_value(d1) == n / 100);
        assert(decimal_value(d2) == (n / 100) * 10 + (n / 10) % 10);
        assert(decimal_value(d) == ((n / 100) * 10 + (n / 10) % 10) * 10 + n % 10);
        assert(((n / 100) * 10 + (n / 10) % 10) * 10 + n % 10 == n) by (nonlinear_arith)
            requires
                n <= 255,
        ;
    }
}

/// The value of the digits `s[from..to]`, if they are all digits and the value is below 256.
pub(crate) fn small_decimal(s: &Vec<char>, from: usize, to: usize) -> (r: Option<u8>)
    requires
        from <= to <= s@.len(),
    ensures
        match r {
            Some(v) => all_dec_digits(s@.subrange(from as int, to as int)) && decimal_value(
                s@.subrange(from as int, to as int),
            ) == v,
            None => !all_dec_digits(s@.subrange(from as int, to as int)) || decimal_value(
                s@.subrange(from as int, to as int),
            ) > 255,
        },
{
    let mut v: u8 = 0;
    let mut i: usize = from;
    while i < to
        invariant
            from <= i <= to <= s@.len(),
            all_dec_digits(s@.subrange(from as int, i as int)),
            decimal_value(s@.subrange(from as int, i as int)) == v,
        decreases to - i,
    {
        let ghost pre = s@.subrange(from as int, i as int);
        let ghost cur = s@.subrange(from as int, i + 1);
        assert(cur.drop_last() =~= pre);
        assert(cur.last() == s@[i as int]);
        let d = match dec_digit_value(s[i]) {
            Some(d) => d,
            None => {
                assert(!is_dec_digit(s@.subrange(from as int, to as int)[i - from]));
                return None;
            },
        };
        if v > 25 || (v == 25 && d > 5) {
            proof {
                assert(decimal_value(cur) > 255);
                if all_dec_digits(s@.subrange(from as int, to as int)) {
                    lemma_decimal_value_grows(s@.subrange(from as int, to as int), i + 1 - from);
                    assert(s@.subrange(from as int, to as int).take(i + 1 - from) =~= cur);
                }
            }
            return None;
        }
        v = v * 10 + d;
        i = i + 1;
        proof {
            assert forall|k: int| 0 <= k < cur.len() implies is_dec_digit(#[trigger] cur[k]) by {
                if k < pre.len() {
                    assert(cur[k] == pre[k]);
                }
            }
        }
    }
    Some(v)
}

proof fn lemma_decimal_value_grows(s: Seq<char>, k: int)
    requires
        0 <= k <= s.len(),
        all_dec_digits(s),
    ensures
        decimal_value(s) >= decimal_value(s.take(k)),
    decreases s.len(),
{
    if k < s.len() {
        assert(s.drop_last().take(k) =~= s.take(k));
        assert(all_dec_digits(s.drop_last())) by {
            assert forall|i: int| 0 <= i < s.drop_last().len() implies is_dec_digit(
                #[trigger] s.drop_last()[i],
            ) by {
                assert(s.drop_last()[i] == s[i]);
            }
        }
        lemma_decimal_value_grows(s.drop_last(), k);
    } else {
        assert(s.take(k) =~= s);
    }
}

} // verus!
