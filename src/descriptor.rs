//! Output-descriptor text: single-signature templates and sorted multisig.
use crate::codec::ScriptKind;
use crate::decimal::{
    all_dec_digits, dec_digit_value, decimal, decimal_exec, digit, is_dec_digit, lemma_decimal_digits,
    small_decimal,
};
use crate::text::{has_at, push_all};
use vstd::prelude::*;

verus! {

pub open spec fn is_alnum(c: char) -> bool {
    ('0' <= c && c <= '9') || ('a' <= c && c <= 'z') || ('A' <= c && c <= 'Z')
}

/// An extended key token: `xpub`, `xprv`, `tpub` or `tprv`, then letters and digits.
pub open spec fn is_key_token(k: Seq<char>) -> bool {
    &&& k.len() >= 5
    &&& k[0] == 'x' || k[0] == 't'
    &&& k[1] == 'p'
    &&& (k[2] == 'u' && k[3] == 'b') || (k[2] == 'r' && k[3] == 'v')
    &&& forall|i: int| 0 <= i < k.len() ==> is_alnum(#[trigger] k[i])
}

pub open spec fn all_tokens(keys: Seq<Seq<char>>) -> bool {
    forall|i: int| 0 <= i < keys.len() ==> is_key_token(#[trigger] keys[i])
}

/// The derivation path `/b/*`: `b` is `0` for receiving, `1` for change.
pub open spec fn branch_path(b: char) -> Seq<char> {
    seq!['/', b, '/', '*']
}

pub open spec fn single_open(kind: ScriptKind) -> Seq<char> {
    match kind {
        ScriptKind::Pkh => seq!['p', 'k', 'h', '('],
        ScriptKind::Wpkh => seq!['w', 'p', 'k', 'h', '('],
        ScriptKind::ShWpkh => seq!['s', 'h', '(', 'w', 'p', 'k', 'h', '('],
        ScriptKind::Wsh => seq!['w', 's', 'h', '('],
        ScriptKind::ShWsh => seq!['s', 'h', '(', 'w', 's', 'h', '('],
    }
}

pub open spec fn single_close(kind: ScriptKind) -> Seq<char> {
    match kind {
        ScriptKind::ShWpkh | ScriptKind::ShWsh => seq![')', ')'],
        _ => seq![')'],
    }
}

/// The single-signature descriptor of `key` for `kind` on branch `b`.
pub open spec fn single_descriptor(kind: ScriptKind, key: Seq<char>, b: char) -> Seq<char> {
    single_open(kind) + key + branch_path(b) + single_close(kind)
}

/// The kinds that have a sorted multisig form: legacy, native and wrapped script hash.
pub open spec fn multisig_kind(kind: ScriptKind) -> bool {
    kind == ScriptKind::Pkh || kind == ScriptKind::Wsh || kind == ScriptKind::ShWsh
}

/// Opening of a sorted multisig descriptor: a legacy group is wrapped in `sh(`.
pub open spec fn multi_open(kind: ScriptKind) -> Seq<char> {
    let sm = seq!['s', 'o', 'r', 't', 'e', 'd', 'm', 'u', 'l', 't', 'i', '('];
    match kind {
        ScriptKind::Pkh => seq!['s', 'h', '('] + sm,
        ScriptKind::ShWsh => seq!['s', 'h', '(', 'w', 's', 'h', '('] + sm,
        _ => seq!['w', 's', 'h', '('] + sm,
    }
}

pub open spec fn multi_close(kind: ScriptKind) -> Seq<char> {
    match kind {
        ScriptKind::ShWsh => seq![')', ')', ')'],
        _ => seq![')', ')'],
    }
}

pub open spec fn key_item(key: Seq<char>, b: char) -> Seq<char> {
    seq![','] + key + branch_path(b)
}

/// `,K1/b/*,K2/b/*,...` for the keys in order.
pub open spec fn key_list(keys: Seq<Seq<char>>, b: char) -> Seq<char>
    decreases keys.len(),
{
    if keys.len() == 0 {
        Seq::empty()
    } else {
        key_item(keys[0], b) + key_list(keys.skip(1), b)
    }
}

/// The sorted multisig descriptor of `keys` with threshold `m` on branch `b`.
pub open spec fn multi_descriptor(kind: ScriptKind, m: nat, keys: Seq<Seq<char>>, b: char) -> Seq<
    char,
> {
    multi_open(kind) + decimal(m) + key_list(keys, b) + multi_close(kind)
}

/// The texts of a vector of character vectors.
pub open spec fn views(keys: Seq<Vec<char>>) -> Seq<Seq<char>> {
    keys.map_values(|k: Vec<char>| k@)
}

pub proof fn lemma_key_list_append(a: Seq<Seq<char>>, c: Seq<Seq<char>>, b: char)
    ensures
        key_list(a + c, b) == key_list(a, b) + key_list(c, b),
    decreases a.len(),
{
    if a.len() == 0 {
        assert(a + c =~= c);
    } else {
        assert((a + c).skip(1) =~= a.skip(1) + c);
        lemma_key_list_append(a.skip(1), c, b);
    }
}

proof fn lemma_key_list_one(k: Seq<char>, b: char)
    ensures
        key_list(seq![k], b) == key_item(k, b),
{
    assert(seq![k].skip(1) =~= Seq::<Seq<char>>::empty());
    assert(key_list(seq![k].skip(1), b) == Seq::<char>::empty());
    assert(key_item(k, b) + Seq::<char>::empty() =~= key_item(k, b));
}

fn is_alnum_exec(c: char) -> (r: bool)
    ensures
        r == is_alnum(c),
{
    ('0' <= c && c <= '9') || ('a' <= c && c <= 'z') || ('A' <= c && c <= 'Z')
}

fn is_key_token_exec(k: &Vec<char>) -> (r: bool)
    ensures
        r == is_key_token(k@),
{
    if k.len() < 5 {
        return false;
    }
    if !(k[0] == 'x' || k[0] == 't') || k[1] != 'p' {
        return false;
    }
    if !((k[2] == 'u' && k[3] == 'b') || (k[2] == 'r' && k[3] == 'v')) {
        return false;
    }
    let mut i: usize = 0;
    while i < k.len()
        invariant
            i <= k@.len(),
            forall|j: int| 0 <= j < i ==> is_alnum(k@[j]),
        decreases k@.len() - i,
    {
        if !is_alnum_exec(k[i]) {
            return false;
        }
        i = i + 1;
    }
    true
}

fn slice_chars(s: &Vec<char>, from: usize, to: usize) -> (r: Vec<char>)
    requires
        from <= to <= s@.len(),
    ensures
        r@ == s@.subrange(from as int, to as int),
{
    let mut r: Vec<char> = Vec::new();
    let mut i: usize = from;
    while i < to
        invariant
            from <= i <= to,
            to <= s@.len(),
            r@ == s@.subrange(from as int, i as int),
        decreases to - i,
    {
        r.push(s[i]);
        i = i + 1;
        assert(s@.subrange(from as int, i as int) == s@.subrange(from as int, i - 1 as int).push(
            s@[i - 1],
        ));
    }
    r
}

fn branch_path_exec(b: char) -> (r: Vec<char>)
    ensures
        r@ == branch_path(b),
{
    let r = vec!['/', b, '/', '*'];
    assert(r@ =~= branch_path(b));
    r
}

fn single_open_exec(kind: ScriptKind) -> (r: Vec<char>)
    ensures
        r@ == single_open(kind),
{
    let r = match kind {
        ScriptKind::Pkh => vec!['p', 'k', 'h', '('],
        ScriptKind::Wpkh => vec!['w', 'p', 'k', 'h', '('],
        ScriptKind::ShWpkh => vec!['s', 'h', '(', 'w', 'p', 'k', 'h', '('],
        ScriptKind::Wsh => vec!['w', 's', 'h', '('],
        ScriptKind::ShWsh => vec!['s', 'h', '(', 'w', 's', 'h', '('],
    };
    assert(r@ =~= single_open(kind));
    r
}

fn single_close_exec(kind: ScriptKind) -> (r: Vec<char>)
    ensures
        r@ == single_close(kind),
{
    let r = match kind {
        ScriptKind::ShWpkh | ScriptKind::ShWsh => vec![')', ')'],
        _ => vec![')'],
    };
    assert(r@ =~= single_close(kind));
    r
}

fn multi_open_exec(kind: ScriptKind) -> (r: Vec<char>)
    ensures
        r@ == multi_open(kind),
{
    let mut r = match kind {
        ScriptKind::Pkh => vec!['s', 'h', '('],
        ScriptKind::ShWsh => vec!['s', 'h', '(', 'w', 's', 'h', '('],
        _ => vec!['w', 's', 'h', '('],
    };
    let sm = vec!['s', 'o', 'r', 't', 'e', 'd', 'm', 'u', 'l', 't', 'i', '('];
    push_all(&mut r, &sm);
    assert(r@ =~= multi_open(kind));
    r
}

fn multi_close_exec(kind: ScriptKind) -> (r: Vec<char>)
    ensures
        r@ == multi_close(kind),
{
    let r = match kind {
        ScriptKind::ShWsh => vec![')', ')', ')'],
        _ => vec![')', ')'],
    };
    assert(r@ =~= multi_close(kind));
    r
}

/// Renders the single-signature descriptor of `key` for `kind` on branch `b`.
pub fn render_single(kind: ScriptKind, key: &Vec<char>, b: char) -> (r: Vec<char>)
    ensures
        r@ == single_descriptor(kind, key@, b),
{
    let mut r = single_open_exec(kind);
    push_all(&mut r, key);
    push_all(&mut r, &branch_path_exec(b));
    push_all(&mut r, &single_close_exec(kind));
    r
}

/// Renders the sorted multisig descriptor of `keys` with threshold `m` on branch `b`.
pub fn render_multi(kind: ScriptKind, m: u8, keys: &Vec<Vec<char>>, b: char) -> (r: Vec<char>)
    ensures
        r@ == multi_descriptor(kind, m as nat, views(keys@), b),
{
    let mut r = multi_open_exec(kind);
    push_all(&mut r, &decimal_exec(m));
    let ghost head = r@;
    let mut i: usize = 0;
    while i < keys.len()
        invariant
            i <= keys@.len(),
            r@ == head + key_list(views(keys@).take(i as int), b),
        decreases keys@.len() - i,
    {
        let ghost before = r@;
        r.push(',');
        push_all(&mut r, &keys[i]);
        push_all(&mut r, &branch_path_exec(b));
        proof {
            let dv = views(keys@);
            assert(dv[i as int] == keys@[i as int]@);
            assert(dv.take(i + 1) =~= dv.take(i as int) + seq![dv[i as int]]);
            lemma_key_list_append(dv.take(i as int), seq![dv[i as int]], b);
            lemma_key_list_one(dv[i as int], b);
            assert(r@ =~= head + key_list(dv.take(i + 1), b));
        }
        i = i + 1;
    }
    assert(views(keys@).take(keys@.len() as int) =~= views(keys@));
    push_all(&mut r, &multi_close_exec(kind));
    r
}

/// The key of `d` if `d` is the receiving single-signature descriptor of `kind`.
fn match_single(d: &Vec<char>, kind: ScriptKind) -> (r: Option<Vec<char>>)
    ensures
        match r {
            Some(k) => is_key_token(k@) && d@ == single_descriptor(kind, k@, '0'),
            None => forall|k: Seq<char>|
                is_key_token(k) ==> d@ != #[trigger] single_descriptor(kind, k, '0'),
        },
{
    let open = single_open_exec(kind);
    let mut tail = branch_path_exec('0');
    push_all(&mut tail, &single_close_exec(kind));
    proof {
        assert forall|k: Seq<char>| d@ == #[trigger] single_descriptor(kind, k, '0') implies
            d@.len() == open@.len() + k.len() + tail@.len()
            && d@.subrange(0, open@.len() as int) == open@
            && d@.subrange(open@.len() as int, d@.len() - tail@.len()) == k
            && d@.subrange(d@.len() - tail@.len(), d@.len() as int) == tail@ by {
            assert(d@.subrange(0, open@.len() as int) =~= open@);
            assert(d@.subrange(open@.len() as int, d@.len() - tail@.len()) =~= k);
            assert(d@.subrange(d@.len() - tail@.len(), d@.len() as int) =~= tail@);
        }
    }
    if d.len() < open.len() + tail.len() {
        return None;
    }
    let key_end = d.len() - tail.len();
    if !has_at(d, 0, &open) || !has_at(d, key_end, &tail) {
        return None;
    }
    let key = slice_chars(d, open.len(), key_end);
    if !is_key_token_exec(&key) {
        return None;
    }
    assert(single_descriptor(kind, key@, '0') =~= open@ + key@ + tail@);
    assert(d@ =~= d@.subrange(0, open@.len() as int) + key@ + d@.subrange(
        key_end as int,
        d@.len() as int,
    ));
    Some(key)
}

/// A single-signature descriptor names exactly one kind and key.
pub proof fn lemma_single_unique(d: Seq<char>, kind: ScriptKind, k: Seq<char>)
    requires
        d == single_descriptor(kind, k, '0'),
    ensures
        forall|kind2: ScriptKind, k2: Seq<char>|
            d == #[trigger] single_descriptor(kind2, k2, '0') ==> kind2 == kind && k2 == k,
{
    assert forall|kind2: ScriptKind, k2: Seq<char>|
        d == #[trigger] single_descriptor(kind2, k2, '0') implies kind2 == kind && k2 == k by {
        let o1 = single_open(kind);
        let o2 = single_open(kind2);
        assert(d[0] == o1[0] && d[0] == o2[0]);
        assert(d[1] == o1[1] && d[1] == o2[1]);
        if o1.len() > 4 && o2.len() > 4 {
            assert(d[4] == o1[4] && d[4] == o2[4]);
        }
        if o1[0] == 's' || o2[0] == 's' {
            assert(d[4] == o1[4] && d[4] == o2[4]);
        }
        assert(kind2 == kind);
        assert(d.len() == o1.len() + k.len() + 4 + single_close(kind).len());
        assert(d.len() == o2.len() + k2.len() + 4 + single_close(kind2).len());
        assert(k.len() == k2.len());
        assert forall|x: int| 0 <= x < k.len() implies k[x] == k2[x] by {
            assert(d[o1.len() + x] == k[x]);
            assert(d[o2.len() + x] == k2[x]);
        }
        assert(k =~= k2);
    }
}

/// Reads the receiving single-signature descriptor `d`: its kind and key.
pub fn parse_single(d: &Vec<char>) -> (r: Option<(ScriptKind, Vec<char>)>)
    ensures
        match r {
            Some((kind, k)) => is_key_token(k@) && d@ == single_descriptor(kind, k@, '0') && forall|
                kind2: ScriptKind,
                k2: Seq<char>,
            |
                d@ == #[trigger] single_descriptor(kind2, k2, '0') ==> kind2 == kind && k2 == k@,
            None => forall|kind: ScriptKind, k: Seq<char>|
                is_key_token(k) ==> d@ != #[trigger] single_descriptor(kind, k, '0'),
        },
{
    let kinds = [
        ScriptKind::Pkh,
        ScriptKind::Wpkh,
        ScriptKind::ShWpkh,
        ScriptKind::Wsh,
        ScriptKind::ShWsh,
    ];
    let mut i: usize = 0;
    while i < 5
        invariant
            i <= 5,
            kinds@ == seq![
                ScriptKind::Pkh,
                ScriptKind::Wpkh,
                ScriptKind::ShWpkh,
                ScriptKind::Wsh,
                ScriptKind::ShWsh,
            ],
            forall|j: int, k: Seq<char>|
                0 <= j < i && is_key_token(k) ==> d@ != #[trigger] single_descriptor(
                    kinds@[j],
                    k,
                    '0',
                ),
        decreases 5 - i,
    {
        match match_single(d, kinds[i]) {
            Some(k) => {
                proof {
                    lemma_single_unique(d@, kinds@[i as int], k@);
                }
                return Some((kinds[i], k));
            },
            None => {},
        }
        i = i + 1;
    }
    assert forall|kind: ScriptKind, k: Seq<char>|
        is_key_token(k) implies d@ != #[trigger] single_descriptor(kind, k, '0') by {
        let j: int = match kind {
            ScriptKind::Pkh => 0,
            ScriptKind::Wpkh => 1,
            ScriptKind::ShWpkh => 2,
            ScriptKind::Wsh => 3,
            ScriptKind::ShWsh => 4,
        };
        assert(kinds@[j] == kind);
    }
    None
}

proof fn lemma_item_split(s: Seq<char>, ks: Seq<Seq<char>>, j: int)
    requires
        all_tokens(ks),
        s == key_list(ks, '0'),
        s.len() > 0,
        1 <= j <= s.len(),
        forall|x: int| 1 <= x < j ==> is_alnum(#[trigger] s[x]),
        j == s.len() || !is_alnum(s[j]),
    ensures
        ks.len() > 0,
        s[0] == ',',
        j == 1 + ks[0].len(),
        s.subrange(1, j) == ks[0],
        j + 4 <= s.len(),
        s.subrange(j, j + 4) == branch_path('0'),
        s.subrange(j + 4, s.len() as int) == key_list(ks.skip(1), '0'),
        all_tokens(ks.skip(1)),
{
    assert(ks.len() > 0);
    let k = ks[0];
    assert(is_key_token(k));
    let rest = key_list(ks.skip(1), '0');
    assert(s =~= seq![','] + k + branch_path('0') + rest);
    let l = k.len() as int;
    if j < 1 + l {
        assert(s[j] == k[j - 1]);
        assert(is_alnum(k[j - 1]));
    }
    if j > 1 + l {
        assert(s[1 + l] == '/');
        assert(is_alnum(s[1 + l]));
    }
    assert(s.subrange(1, j) =~= k);
    assert(s.subrange(j, j + 4) =~= branch_path('0'));
    assert(s.subrange(j + 4, s.len() as int) =~= rest);
    assert forall|i: int| 0 <= i < ks.skip(1).len() implies is_key_token(#[trigger] ks.skip(1)[i]) by {
        assert(ks.skip(1)[i] == ks[i + 1]);
    }
}

/// Reads `,K1/0/*,K2/0/*,...` between `start` and `end`. The keys are unique
/// where they exist.
#[verifier::rlimit(60)]
fn parse_key_list(d: &Vec<char>, start: usize, end: usize) -> (r: Option<Vec<Vec<char>>>)
    requires
        start <= end <= d@.len(),
    ensures
        match r {
            Some(keys) => all_tokens(views(keys@))
                && d@.subrange(start as int, end as int) == key_list(views(keys@), '0')
                && forall|ks: Seq<Seq<char>>| all_tokens(ks) && d@.subrange(start as int, end as int)
                    == #[trigger] key_list(ks, '0') ==> ks == views(keys@),
            None => forall|ks: Seq<Seq<char>>|
                all_tokens(ks) ==> d@.subrange(start as int, end as int) != #[trigger] key_list(
                    ks,
                    '0',
                ),
        },
{
    let mut keys: Vec<Vec<char>> = Vec::new();
    let mut i: usize = start;
    let path = branch_path_exec('0');
    assert(key_list(views(keys@), '0') =~= d@.subrange(start as int, start as int));
    assert forall|ks: Seq<Seq<char>>|
        all_tokens(ks) && d@.subrange(start as int, end as int) == #[trigger] key_list(ks, '0')
        implies keys@.len() <= ks.len() && ks.take(keys@.len() as int) == views(keys@)
        && d@.subrange(i as int, end as int) == key_list(ks.skip(keys@.len() as int), '0') by {
        assert(ks.take(0) =~= views(keys@));
        assert(ks.skip(0) =~= ks);
    }
    while i < end
        invariant
            start <= i <= end,
            end <= d@.len(),
            path@ == branch_path('0'),
            all_tokens(views(keys@)),
            d@.subrange(start as int, i as int) == key_list(views(keys@), '0'),
            forall|ks: Seq<Seq<char>>|
                all_tokens(ks) && d@.subrange(start as int, end as int) == #[trigger] key_list(
                    ks,
                    '0',
                ) ==> keys@.len() <= ks.len() && ks.take(keys@.len() as int) == views(keys@)
                    && d@.subrange(i as int, end as int) == key_list(
                    ks.skip(keys@.len() as int),
                    '0',
                ),
        decreases end - i,
    {
        let mut j: usize = i + 1;
        while j < end && is_alnum_exec(d[j])
            invariant
                i + 1 <= j <= end,
                end <= d@.len(),
                forall|x: int| i + 1 <= x < j ==> is_alnum(#[trigger] d@[x]),
            decreases end - j,
        {
            j = j + 1;
        }
        let ghost n = keys@.len() as int;
        let ghost s = d@.subrange(i as int, end as int);
        proof {
            assert forall|ks: Seq<Seq<char>>|
                all_tokens(ks) && d@.subrange(start as int, end as int) == #[trigger] key_list(
                    ks,
                    '0',
                ) implies n < ks.len() && s[0] == ',' && j == i + 1 + ks[n].len()
                && s.subrange(1, j - i) == ks[n] && j + 4 <= end && s.subrange(j - i, j - i + 4)
                == branch_path('0') && d@.subrange(j as int, j + 4) == branch_path('0')
                && d@.subrange(i + 1, j as int) == ks[n] && s.subrange(j - i + 4, s.len() as int) == key_list(
                ks.skip(n + 1),
                '0',
            ) by {
                let rest = ks.skip(n);
                assert forall|x: int| 0 <= x < rest.len() implies is_key_token(#[trigger] rest[x]) by {
                    assert(rest[x] == ks[x + n]);
                }
                assert forall|x: int| 1 <= x < j - i implies is_alnum(#[trigger] s[x]) by {
                    assert(s[x] == d@[i + x]);
                }
                if j < end {
                    assert(s[j - i] == d@[j as int]);
                }
                lemma_item_split(s, rest, j - i);
                assert(d@.subrange(j as int, j + 4) =~= s.subrange(j - i, j - i + 4));
                assert(d@.subrange(i + 1, j as int) =~= s.subrange(1, j - i));
                assert(rest.skip(1) =~= ks.skip(n + 1));
            }
        }
        if d[i] != ',' {
            return None;
        }
        let key = slice_chars(d, i + 1, j);
        if !is_key_token_exec(&key) {
            return None;
        }
        if end - j < 4 || !has_at(d, j, &path) {
            return None;
        }
        proof {
            assert(s.subrange(1, j - i) =~= key@);
            assert(d@.subrange(j as int, j + 4) =~= s.subrange(j - i, j - i + 4));
        }
        let ghost old_views = views(keys@);
        keys.push(key);
        proof {
            assert(views(keys@) =~= old_views + seq![key@]);
            lemma_key_list_append(old_views, seq![key@], '0');
            lemma_key_list_one(key@, '0');
            assert(d@.subrange(start as int, j + 4) =~= d@.subrange(start as int, i as int) + key_item(
                key@,
                '0',
            ));
            assert forall|ks: Seq<Seq<char>>|
                all_tokens(ks) && d@.subrange(start as int, end as int) == #[trigger] key_list(
                    ks,
                    '0',
                ) implies keys@.len() <= ks.len() && ks.take(keys@.len() as int) == views(keys@)
                && d@.subrange(j + 4, end as int) == key_list(ks.skip(keys@.len() as int), '0') by {
                assert(ks.take(n + 1) =~= ks.take(n) + seq![ks[n]]);
                assert(s.subrange(j - i + 4, s.len() as int) =~= d@.subrange(j + 4, end as int));
                assert(s.subrange(1, j - i) == ks[n]);
            }
        }
        i = j + 4;
    }
    proof {
        assert forall|ks: Seq<Seq<char>>|
            all_tokens(ks) && d@.subrange(start as int, end as int) == #[trigger] key_list(ks, '0')
            implies ks == views(keys@) by {
            let rest = ks.skip(keys@.len() as int);
            if rest.len() > 0 {
                assert(key_list(rest, '0').len() > 0);
            }
            assert(ks =~= ks.take(keys@.len() as int));
        }
    }
    Some(keys)
}

/// Threshold and keys of `d` if `d` is the receiving sorted multisig
/// descriptor of `kind`.
#[verifier::rlimit(60)]
fn match_multi(d: &Vec<char>, kind: ScriptKind) -> (r: Option<(u8, Vec<Vec<char>>)>)
    ensures
        match r {
            Some((m, keys)) => 1 <= m && all_tokens(views(keys@)) && d@ == multi_descriptor(
                kind,
                m as nat,
                views(keys@),
                '0',
            ) && forall|m2: nat, ks: Seq<Seq<char>>|
                1 <= m2 <= 255 && all_tokens(ks) && d@ == #[trigger] multi_descriptor(
                    kind,
                    m2,
                    ks,
                    '0',
                ) ==> m2 == m && ks == views(keys@),
            None => forall|m2: nat, ks: Seq<Seq<char>>|
                1 <= m2 <= 255 && all_tokens(ks) ==> d@ != #[trigger] multi_descriptor(
                    kind,
                    m2,
                    ks,
                    '0',
                ),
        },
{
    let open = multi_open_exec(kind);
    let close = multi_close_exec(kind);
    let ghost o = open@.len() as int;
    proof {
        assert forall|m2: nat, ks: Seq<Seq<char>>|
            1 <= m2 <= 255 && d@ == #[trigger] multi_descriptor(kind, m2, ks, '0') implies d@.len()
            >= o + decimal(m2).len() + close@.len() && d@.subrange(0, o) == open@
            && d@.subrange(o, o + decimal(m2).len()) == decimal(m2) && d@.subrange(
            o + decimal(m2).len(),
            d@.len() - close@.len(),
        ) == key_list(ks, '0') && d@.subrange(d@.len() - close@.len(), d@.len() as int)
            == close@ by {
            let t = decimal(m2);
            assert(d@ =~= open@ + t + key_list(ks, '0') + close@);
            assert(d@.subrange(0, o) =~= open@);
            assert(d@.subrange(o, o + t.len()) =~= t);
            assert(d@.subrange(o + t.len(), d@.len() - close@.len()) =~= key_list(ks, '0'));
            assert(d@.subrange(d@.len() - close@.len(), d@.len() as int) =~= close@);
        }
    }
    if d.len() < open.len() + close.len() {
        return None;
    }
    let keys_end = d.len() - close.len();
    if !has_at(d, 0, &open) || !has_at(d, keys_end, &close) {
        return None;
    }
    let start = open.len();
    let mut j: usize = start;
    while j < keys_end && dec_digit_value(d[j]).is_some()
        invariant
            start <= j <= keys_end,
            keys_end <= d@.len(),
            forall|x: int| start <= x < j ==> is_dec_digit(#[trigger] d@[x]),
        decreases keys_end - j,
    {
        j = j + 1;
    }
    proof {
        assert forall|m2: nat, ks: Seq<Seq<char>>|
            1 <= m2 <= 255 && all_tokens(ks) && d@ == #[trigger] multi_descriptor(kind, m2, ks, '0')
            implies j == start + decimal(m2).len() by {
            let t = decimal(m2);
            let l = t.len() as int;
            lemma_decimal_digits(m2);
            assert(forall|n: nat| n < 10 ==> #[trigger] digit(n) != ',');
            if j < start + l {
                assert(d@[j as int] == d@.subrange(o, o + l)[j - o]);
                assert(is_dec_digit(t[j - o]));
            }
            if j > start + l {
                let kl = key_list(ks, '0');
                assert(kl.len() > 0);
                assert(kl[0] == ',');
                assert(d@[start + l] == d@.subrange(start + l, keys_end as int)[0]);
                assert(is_dec_digit(d@[start + l]));
            }
        }
    }
    let v = match small_decimal(d, start, j) {
        Some(v) => v,
        None => {
            proof {
                assert forall|m2: nat, ks: Seq<Seq<char>>|
                    1 <= m2 <= 255 && all_tokens(ks) implies d@ != #[trigger] multi_descriptor(
                    kind,
                    m2,
                    ks,
                    '0',
                ) by {
                    if d@ == multi_descriptor(kind, m2, ks, '0') {
                        lemma_decimal_digits(m2);
                    }
                }
            }
            return None;
        },
    };
    let t = decimal_exec(v);
    if v == 0 || j - start != t.len() || !has_at(d, start, &t) {
        proof {
            assert forall|m2: nat, ks: Seq<Seq<char>>|
                1 <= m2 <= 255 && all_tokens(ks) implies d@ != #[trigger] multi_descriptor(
                kind,
                m2,
                ks,
                '0',
            ) by {
                if d@ == multi_descriptor(kind, m2, ks, '0') {
                    lemma_decimal_digits(m2);
                }
            }
        }
        return None;
    }
    proof {
        assert(d@.subrange(start as int, j as int) == decimal(v as nat));
        assert forall|m2: nat, ks: Seq<Seq<char>>|
            1 <= m2 <= 255 && all_tokens(ks) && d@ == #[trigger] multi_descriptor(kind, m2, ks, '0')
            implies m2 == v && d@.subrange(j as int, keys_end as int) == key_list(ks, '0') by {
            lemma_decimal_digits(m2);
        }
    }
    match parse_key_list(d, j, keys_end) {
        Some(keys) => {
            proof {
                let dv = views(keys@);
                assert(d@ =~= d@.subrange(0, o) + d@.subrange(start as int, j as int)
                    + d@.subrange(j as int, keys_end as int) + d@.subrange(
                    keys_end as int,
                    d@.len() as int,
                ));
                assert(d@ =~= multi_descriptor(kind, v as nat, dv, '0'));
            }
            Some((v, keys))
        },
        None => None,
    }
}

/// Reads the receiving sorted multisig descriptor `d`: its kind, threshold and keys.
pub fn parse_multi(d: &Vec<char>) -> (r: Option<(ScriptKind, u8, Vec<Vec<char>>)>)
    ensures
        match r {
            Some((kind, m, keys)) => multisig_kind(kind) && 1 <= m && all_tokens(views(keys@))
                && d@ == multi_descriptor(kind, m as nat, views(keys@), '0') && forall|
                kind2: ScriptKind,
                m2: nat,
                ks: Seq<Seq<char>>,
            |
                multisig_kind(kind2) && 1 <= m2 <= 255 && all_tokens(ks) && d@
                    == #[trigger] multi_descriptor(kind2, m2, ks, '0') ==> kind2 == kind && m2 == m
                    && ks == views(keys@),
            None => forall|kind2: ScriptKind, m2: nat, ks: Seq<Seq<char>>|
                multisig_kind(kind2) && 1 <= m2 <= 255 && all_tokens(ks) ==> d@
                    != #[trigger] multi_descriptor(kind2, m2, ks, '0'),
        },
{
    proof {
        assert forall|kind2: ScriptKind, m2: nat, ks: Seq<Seq<char>>|
            multisig_kind(kind2) && d@ == #[trigger] multi_descriptor(kind2, m2, ks, '0') implies (
            d@[0] == multi_open(kind2)[0] && d@[3] == multi_open(kind2)[3]) by {}
    }
    let kinds = [ScriptKind::Wsh, ScriptKind::ShWsh, ScriptKind::Pkh];
    let mut i: usize = 0;
    while i < 3
        invariant
            i <= 3,
            kinds@ == seq![ScriptKind::Wsh, ScriptKind::ShWsh, ScriptKind::Pkh],
            forall|j: int, m2: nat, ks: Seq<Seq<char>>|
                0 <= j < i && 1 <= m2 <= 255 && all_tokens(ks) ==> d@ != #[trigger] multi_descriptor(
                    kinds@[j],
                    m2,
                    ks,
                    '0',
                ),
        decreases 3 - i,
    {
        match match_multi(d, kinds[i]) {
            Some((m, keys)) => {
                proof {
                    let kind = kinds@[i as int];
                    assert(d@[0] == multi_open(kind)[0] && d@[3] == multi_open(kind)[3]);
                }
                return Some((kinds[i], m, keys));
            },
            None => {},
        }
        i = i + 1;
    }
    assert forall|kind2: ScriptKind, m2: nat, ks: Seq<Seq<char>>|
        multisig_kind(kind2) && 1 <= m2 <= 255 && all_tokens(ks) implies d@
        != #[trigger] multi_descriptor(kind2, m2, ks, '0') by {
        let j: int = match kind2 {
            ScriptKind::Wsh => 0,
            ScriptKind::ShWsh => 1,
            _ => 2,
        };
        assert(kinds@[j] == kind2);
    }
    None
}

proof fn lemma_key_list_unique(a: Seq<Seq<char>>, b: Seq<Seq<char>>)
    requires
        all_tokens(a),
        all_tokens(b),
        key_list(a, '0') == key_list(b, '0'),
    ensures
        a == b,
    decreases a.len(),
{
    let s = key_list(a, '0');
    if a.len() == 0 {
        if b.len() > 0 {
            assert(key_list(b, '0').len() > 0);
        }
        assert(a =~= b);
    } else {
        let k = a[0];
        assert(is_key_token(k));
        let j: int = 1 + k.len() as int;
        assert(s =~= seq![','] + k + branch_path('0') + key_list(a.skip(1), '0'));
        assert forall|x: int| 1 <= x < j implies is_alnum(#[trigger] s[x]) by {
            assert(s[x] == k[x - 1]);
        }
        assert(s[j] == '/');
        lemma_item_split(s, a, j);
        lemma_item_split(s, b, j);
        lemma_key_list_unique(a.skip(1), b.skip(1));
        assert(a =~= seq![a[0]] + a.skip(1));
        assert(b =~= seq![b[0]] + b.skip(1));
    }
}

proof fn lemma_digits_split(t1: Seq<char>, r1: Seq<char>, t2: Seq<char>, r2: Seq<char>)
    requires
        all_dec_digits(t1),
        all_dec_digits(t2),
        r1.len() > 0 && !is_dec_digit(r1[0]),
        r2.len() > 0 && !is_dec_digit(r2[0]),
        t1 + r1 == t2 + r2,
    ensures
        t1 == t2 && r1 == r2,
{
    let d = t1 + r1;
    if t1.len() < t2.len() {
        assert(d[t1.len() as int] == r1[0]);
        assert(d[t1.len() as int] == t2[t1.len() as int]);
    }
    if t2.len() < t1.len() {
        assert(d[t2.len() as int] == r2[0]);
        assert(d[t2.len() as int] == t1[t2.len() as int]);
    }
    assert(t1 =~= d.subrange(0, t1.len() as int));
    assert(t2 =~= d.subrange(0, t2.len() as int));
    assert(r1 =~= d.subrange(t1.len() as int, d.len() as int));
    assert(r2 =~= d.subrange(t2.len() as int, d.len() as int));
}

proof fn lemma_open_unique(kind: ScriptKind, kind2: ScriptKind, a: Seq<char>, b: Seq<char>)
    requires
        multisig_kind(kind) && multisig_kind(kind2),
        multi_open(kind) + a == multi_open(kind2) + b,
    ensures
        kind == kind2 && a == b,
{
    let d = multi_open(kind) + a;
    assert(d[0] == multi_open(kind)[0] && d[0] == multi_open(kind2)[0]);
    assert(d[3] == multi_open(kind)[3] && d[3] == multi_open(kind2)[3]);
    assert(a =~= d.subrange(multi_open(kind).len() as int, d.len() as int));
    assert(b =~= d.subrange(multi_open(kind).len() as int, d.len() as int));
}

proof fn lemma_not_digit_after(ks: Seq<Seq<char>>, close: Seq<char>)
    requires
        close.len() > 0 && close[0] == ')',
    ensures
        (key_list(ks, '0') + close).len() > 0,
        !is_dec_digit((key_list(ks, '0') + close)[0]),
{
    let r = key_list(ks, '0') + close;
    assert(forall|n: nat| n < 10 ==> #[trigger] digit(n) != ',' && digit(n) != ')');
    if ks.len() > 0 {
        assert(r[0] == key_list(ks, '0')[0]);
    } else {
        assert(r[0] == close[0]);
    }
}

/// A sorted multisig descriptor names exactly one kind, threshold and key list.
#[verifier::rlimit(40)]
pub proof fn lemma_multi_unique(
    kind: ScriptKind,
    m: nat,
    ks: Seq<Seq<char>>,
    kind2: ScriptKind,
    m2: nat,
    ks2: Seq<Seq<char>>,
)
    requires
        multisig_kind(kind) && multisig_kind(kind2),
        1 <= m <= 255 && 1 <= m2 <= 255,
        all_tokens(ks) && all_tokens(ks2),
        multi_descriptor(kind, m, ks, '0') == multi_descriptor(kind2, m2, ks2, '0'),
    ensures
        kind == kind2 && m == m2 && ks == ks2,
{
    let t1 = decimal(m);
    let t2 = decimal(m2);
    let r1 = key_list(ks, '0') + multi_close(kind);
    let r2 = key_list(ks2, '0') + multi_close(kind2);
    assert(multi_descriptor(kind, m, ks, '0') =~= multi_open(kind) + (t1 + r1));
    assert(multi_descriptor(kind2, m2, ks2, '0') =~= multi_open(kind2) + (t2 + r2));
    lemma_open_unique(kind, kind2, t1 + r1, t2 + r2);
    let close = multi_close(kind);
    lemma_decimal_digits(m);
    lemma_decimal_digits(m2);
    lemma_not_digit_after(ks, close);
    lemma_not_digit_after(ks2, close);
    lemma_digits_split(t1, r1, t2, r2);
    assert(key_list(ks, '0') =~= r1.subrange(0, r1.len() - close.len()));
    assert(key_list(ks2, '0') =~= r2.subrange(0, r2.len() - close.len()));
    lemma_key_list_unique(ks, ks2);
}

} // verus!
