//! Decimal numerals and identifier text.
use vstd::prelude::*;

verus! {

/// The character of a decimal digit.
pub open spec fn digit_char(d: nat) -> char {
    if d == 0 { '0' }
    else if d == 1 { '1' }
    else if d == 2 { '2' }
    else if d == 3 { '3' }
    else if d == 4 { '4' }
    else if d == 5 { '5' }
    else if d == 6 { '6' }
    else if d == 7 { '7' }
    else if d == 8 { '8' }
    else { '9' }
}

pub open spec fn is_digit(c: char) -> bool {
    '0' <= c && c <= '9'
}

/// The value of a decimal digit character.
pub open spec fn digit_value(c: char) -> nat {
    (c as int - '0' as int) as nat
}

/// The shortest decimal numeral of `n`, most significant digit first.
pub open spec fn decimal(n: nat) -> Seq<char>
    decreases n,
{
    if n < 10 {
        seq![digit_char(n)]
    } else {
        decimal(n / 10).push(digit_char(n % 10))
    }
}

/// The number that a sequence of decimal digits denotes.
pub open spec fn digits_value(s: Seq<char>) -> nat
    decreases s.len(),
{
    if s.len() == 0 {
        0
    } else {
        digits_value(s.drop_last()) * 10 + digit_value(s.last())
    }
}

pub open spec fn all_digits(s: Seq<char>) -> bool {
    forall|i: int| 0 <= i < s.len() ==> is_digit(#[trigger] s[i])
}

/// `s` without one leading `'+'`.
pub open spec fn unsigned_part(s: Seq<char>) -> Seq<char> {
    if s.len() > 0 && s[0] == '+' {
        s.drop_first()
    } else {
        s
    }
}

/// A non-empty run of decimal digits whose value fits in a `usize`.
pub open spec fn is_digit_run(s: Seq<char>) -> bool {
    &&& s.len() > 0
    &&& all_digits(s)
    &&& digits_value(s) <= usize::MAX
}

/// An unsigned decimal numeral that fits in a `usize`: a run of digits,
/// optionally after a `'+'`.
pub open spec fn is_index_text(s: Seq<char>) -> bool {
    is_digit_run(unsigned_part(s))
}

/// The value of an unsigned decimal numeral.
pub open spec fn index_value(s: Seq<char>) -> nat {
    digits_value(unsigned_part(s))
}

/// Position of the first `'.'` in `s`, or its length when it holds none.
pub open spec fn dot_pos(s: Seq<char>) -> nat
    decreases s.len(),
{
    if s.len() == 0 {
        0
    } else if s[0] == '.' {
        0
    } else {
        1 + dot_pos(s.drop_first())
    }
}

/// What stands before the first `'.'` of `s` (all of `s` when it holds none).
pub open spec fn id_prefix(s: Seq<char>) -> Seq<char> {
    s.take(dot_pos(s) as int)
}

/// The identifier of a record stored in shard `shard`, distinguished by `tag`.
pub open spec fn id_text(shard: nat, tag: Seq<char>) -> Seq<char> {
    decimal(shard) + seq!['.'] + tag
}

pub open spec fn dot_free(s: Seq<char>) -> bool {
    forall|i: int| 0 <= i < s.len() ==> #[trigger] s[i] != '.'
}

proof fn lemma_digit_char(d: nat)
    requires
        d < 10,
    ensures
        is_digit(digit_char(d)),
        digit_value(digit_char(d)) == d,
{
}

/// A decimal numeral consists of digits and denotes the number it was made from.
pub proof fn lemma_decimal_digits(n: nat)
    ensures
        all_digits(decimal(n)),
        digits_value(decimal(n)) == n,
        decimal(n).len() > 0,
        unsigned_part(decimal(n)) == decimal(n),
        index_value(decimal(n)) == n,
    decreases n,
{
    if n < 10 {
        lemma_digit_char(n);
        assert(decimal(n)[0] == digit_char(n));
        assert(decimal(n).drop_last() =~= Seq::<char>::empty());
        assert(digits_value(Seq::<char>::empty()) == 0);
        assert(digits_value(decimal(n)) == 0 * 10 + digit_value(digit_char(n)));
    } else {
        lemma_decimal_digits(n / 10);
        lemma_digit_char(n % 10);
        let s = decimal(n);
        assert(s.drop_last() =~= decimal(n / 10));
        assert(s.last() == digit_char(n % 10));
        assert((n / 10) * 10 + n % 10 == n) by (nonlinear_arith);
        assert(digits_value(s) == digits_value(decimal(n / 10)) * 10 + digit_value(digit_char(n % 10)));
        assert forall|i: int| 0 <= i < s.len() implies is_digit(#[trigger] s[i]) by {
            if i < s.len() - 1 {
                assert(s[i] == decimal(n / 10)[i]);
            }
        }
        assert(is_digit(s[0]));
    }
}

/// `dot_pos` is the length of the longest dot-free prefix.
pub proof fn lemma_dot_pos(s: Seq<char>, k: nat)
    requires
        k <= s.len(),
        dot_free(s.take(k as int)),
        k == s.len() || s[k as int] == '.',
    ensures
        dot_pos(s) == k,
    decreases k,
{
    if k > 0 {
        assert(s.take(k as int)[0] == s[0]);
        let t = s.drop_first();
        assert forall|i: int| 0 <= i < (k - 1) as int implies #[trigger] t.take(k - 1)[i] != '.' by {
            assert(s.take(k as int)[i + 1] == s[i + 1]);
        }
        if k < s.len() {
            assert(t[k - 1] == s[k as int]);
        }
        lemma_dot_pos(t, (k - 1) as nat);
    }
}

/// The prefix of an identifier is the decimal numeral of its shard.
pub proof fn lemma_id_prefix(shard: nat, tag: Seq<char>)
    ensures
        id_prefix(id_text(shard, tag)) == decimal(shard),
        is_index_text(decimal(shard)) || shard > usize::MAX,
        index_value(decimal(shard)) == shard,
{
    let s = id_text(shard, tag);
    let d = decimal(shard);
    lemma_decimal_digits(shard);
    assert(s[d.len() as int] == '.');
    assert(s.take(d.len() as int) =~= d);
    assert forall|i: int| 0 <= i < d.len() implies #[trigger] s.take(d.len() as int)[i] != '.' by {
        assert(is_digit(d[i]));
    }
    lemma_dot_pos(s, d.len());
}

/// The text of one decimal digit.
fn digit_str(d: usize) -> (r: &'static str)
    requires
        d < 10,
    ensures
        r@ == seq![digit_char(d as nat)],
{
    proof {
        reveal_strlit("0");
        reveal_strlit("1");
        reveal_strlit("2");
        reveal_strlit("3");
        reveal_strlit("4");
        reveal_strlit("5");
        reveal_strlit("6");
        reveal_strlit("7");
        reveal_strlit("8");
        reveal_strlit("9");
    }
    if d == 0 { "0" }
    else if d == 1 { "1" }
    else if d == 2 { "2" }
    else if d == 3 { "3" }
    else if d == 4 { "4" }
    else if d == 5 { "5" }
    else if d == 6 { "6" }
    else if d == 7 { "7" }
    else if d == 8 { "8" }
    else { "9" }
}

/// The decimal numeral of `n`.
pub fn to_decimal(n: usize) -> (r: String)
    ensures
        r@ == decimal(n as nat),
    decreases n,
{
    if n < 10 {
        String::from_str(digit_str(n))
    } else {
        let mut r = to_decimal(n / 10);
        r.append(digit_str(n % 10));
        r
    }
}

/// The number that `s` spells in decimal, or `None` unless `s` is a
/// non-empty run of digits, optionally after a `'+'`, whose value fits in a
/// `usize`.
pub fn parse_decimal(s: &str) -> (r: Option<usize>)
    ensures
        r.is_some() <==> is_index_text(s@),
        r.is_some() ==> r.unwrap() as nat == index_value(s@),
{
    let n = s.unicode_len();
    if n > 0 && s.get_char(0) == '+' {
        let rest = s.substring_char(1, n);
        assert(rest@ =~= s@.drop_first());
        parse_digits(rest)
    } else {
        parse_digits(s)
    }
}

/// The number that a run of digits spells, or `None` unless `s` is a
/// non-empty run of digits whose value fits in a `usize`.
fn parse_digits(s: &str) -> (r: Option<usize>)
    ensures
        r.is_some() <==> is_digit_run(s@),
        r.is_some() ==> r.unwrap() as nat == digits_value(s@),
{
    let n = s.unicode_len();
    if n == 0 {
        return None;
    }
    let mut v: usize = 0;
    let mut i: usize = 0;
    while i < n
        invariant
            n == s@.len(),
            i <= n,
            all_digits(s@.take(i as int)),
            v as nat == digits_value(s@.take(i as int)),
        decreases n - i,
    {
        let c = s.get_char(i);
        assert(s@.take(i as int + 1).drop_last() =~= s@.take(i as int));
        if !('0' <= c && c <= '9') {
            assert(!all_digits(s@));
            return None;
        }
        let d = (c as u32 - '0' as u32) as usize;
        if v > (usize::MAX - d) / 10 {
            proof {
                if all_digits(s@) {
                    lemma_digits_value_prefix(s@, i as int + 1);
                }
            }
            return None;
        }
        v = v * 10 + d;
        i = i + 1;
    }
    assert(s@.take(n as int) =~= s@);
    Some(v)
}

/// A run of digits is worth at least any of its prefixes.
proof fn lemma_digits_value_prefix(s: Seq<char>, k: int)
    requires
        0 <= k <= s.len(),
        all_digits(s),
    ensures
        digits_value(s.take(k)) <= digits_value(s),
    decreases s.len() - k,
{
    if k < s.len() {
        lemma_digits_value_prefix(s, k + 1);
        assert(s.take(k + 1).drop_last() =~= s.take(k));
    } else {
        assert(s.take(k) =~= s);
    }
}

/// Number of characters before the first `'.'` of `s`.
pub fn find_dot(s: &str) -> (r: usize)
    ensures
        r <= s@.len(),
        r as nat == dot_pos(s@),
{
    let n = s.unicode_len();
    let mut i: usize = 0;
    while i < n
        invariant
            n == s@.len(),
            i <= n,
            dot_free(s@.take(i as int)),
        decreases n - i,
    {
        if s.get_char(i) == '.' {
            proof {
                lemma_dot_pos(s@, i as nat);
            }
            return i;
        }
        assert(s@.take(i as int + 1).drop_last() =~= s@.take(i as int));
        i = i + 1;
    }
    proof {
        lemma_dot_pos(s@, i as nat);
    }
    i
}

} // verus!
