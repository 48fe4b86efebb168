//! Text helpers: equality, prefixes, decimal numbers and indexed weight keys.

use vstd::prelude::*;
use vstd::string::*;
use vstd::utf8::*;

verus! {

// ── Equality and prefixes ────────────────────────────────────────────

/// Whether two strings hold the same characters.
pub fn str_eq(a: &str, b: &str) -> (r: bool)
    ensures
        r == (a@ == b@),
{
    let x = a.as_bytes();
    let y = b.as_bytes();
    proof {
        if a.spec_bytes() == b.spec_bytes() {
            encode_utf8_decode_utf8(a@);
            encode_utf8_decode_utf8(b@);
        }
    }
    if x.len() != y.len() {
        return false;
    }
    let mut i: usize = 0;
    while i < x.len()
        invariant
            i <= x@.len(),
            x@.len() == y@.len(),
            x@ == a.spec_bytes(),
            y@ == b.spec_bytes(),
            forall|k: int| 0 <= k < i ==> x@[k] == y@[k],
        decreases x@.len() - i,
    {
        if x[i] != y[i] {
            return false;
        }
        i += 1;
    }
    assert(x@ =~= y@);
    true
}

/// What is left of `s` after `prefix`, if `s` starts with it.
pub open spec fn after_prefix(s: Seq<char>, prefix: Seq<char>) -> Option<Seq<char>> {
    if prefix.is_prefix_of(s) {
        Some(s.skip(prefix.len() as int))
    } else {
        None
    }
}

/// The rest of `s` behind `prefix`, or `None` when `s` does not start with it.
pub fn strip_prefix<'a>(s: &'a str, prefix: &str) -> (r: Option<&'a str>)
    ensures
        match r {
            Some(rest) => after_prefix(s@, prefix@) == Some(rest@),
            None => after_prefix(s@, prefix@) is None,
        },
{
    let n = s.unicode_len();
    let p = prefix.unicode_len();
    if n < p {
        return None;
    }
    let head = s.substring_char(0, p);
    proof {
        assert(prefix@.is_prefix_of(s@) <==> head@ == prefix@) by {
            assert(head@ =~= s@.subrange(0, p as int));
        }
    }
    if str_eq(head, prefix) {
        let rest = s.substring_char(p, n);
        assert(rest@ =~= s@.skip(p as int));
        Some(rest)
    } else {
        None
    }
}

/// Whether `s` starts with `prefix`.
pub fn starts_with(s: &str, prefix: &str) -> (r: bool)
    ensures
        r == prefix@.is_prefix_of(s@),
{
    strip_prefix(s, prefix).is_some()
}

/// The characters of `s`, in order.
pub fn to_chars(s: &str) -> (r: Vec<char>)
    ensures
        r@ == s@,
{
    let mut out: Vec<char> = Vec::new();
    let n = s.unicode_len();
    let mut i: usize = 0;
    while i < n
        invariant
            i <= n,
            n == s@.len(),
            out@ == s@.take(i as int),
        decreases n - i,
    {
        out.push(s.get_char(i));
        i += 1;
        assert(s@.take(i as int) =~= s@.take(i - 1).push(s@[i - 1]));
    }
    assert(s@.take(n as int) =~= s@);
    out
}

/// The position of the first `c` in `s`.
pub open spec fn first_index(s: Seq<char>, c: char) -> Option<int>
    decreases s.len(),
{
    if s.len() == 0 {
        None
    } else if s[0] == c {
        Some(0int)
    } else {
        match first_index(s.skip(1), c) {
            Some(i) => Some(i + 1),
            None => None,
        }
    }
}

/// `first_index` is `i` exactly when `c` stands at `i` and nowhere before.
pub proof fn lemma_first_index_at(s: Seq<char>, c: char, i: int)
    requires
        0 <= i < s.len(),
        s[i] == c,
        forall|k: int| 0 <= k < i ==> s[k] != c,
    ensures
        first_index(s, c) == Some(i),
    decreases s.len(),
{
    if i > 0 {
        assert(s[0] != c);
        lemma_first_index_at(s.skip(1), c, i - 1);
    }
}

/// `first_index` is `None` exactly when `c` does not occur.
pub proof fn lemma_first_index_none(s: Seq<char>, c: char)
    requires
        forall|k: int| 0 <= k < s.len() ==> s[k] != c,
    ensures
        first_index(s, c) is None,
    decreases s.len(),
{
    if s.len() > 0 {
        lemma_first_index_none(s.skip(1), c);
    }
}

/// The character index of the first `c` in `s`.
pub fn find_char(s: &str, c: char) -> (r: Option<usize>)
    ensures
        match r {
            Some(i) => first_index(s@, c) == Some(i as int) && i < s@.len() && s@[i as int] == c,
            None => first_index(s@, c) is None,
        },
{
    let n = s.unicode_len();
    let mut i: usize = 0;
    while i < n
        invariant
            i <= n,
            n == s@.len(),
            forall|k: int| 0 <= k < i ==> s@[k] != c,
        decreases n - i,
    {
        if s.get_char(i) == c {
            proof {
                lemma_first_index_at(s@, c, i as int);
            }
            return Some(i);
        }
        i += 1;
    }
    proof {
        lemma_first_index_none(s@, c);
    }
    None
}

// ── Decimal numbers ──────────────────────────────────────────────────

pub open spec fn is_digit(c: char) -> bool {
    '0' <= c <= '9'
}

pub open spec fn digit_value(c: char) -> nat {
    (c as int - '0' as int) as nat
}

pub open spec fn all_digits(s: Seq<char>) -> bool {
    forall|i: int| 0 <= i < s.len() ==> is_digit(#[trigger] s[i])
}

/// The number that a run of decimal digits stands for.
pub open spec fn digits_value(s: Seq<char>) -> nat
    decreases s.len(),
{
    if s.len() == 0 {
        0
    } else {
        digits_value(s.drop_last()) * 10 + digit_value(s.last())
    }
}

/// The number written in `s`: one or more decimal digits, with or without a
/// leading plus sign, whose value fits a `usize`.
pub open spec fn decimal_value(s: Seq<char>) -> Option<usize> {
    let digits = if s.len() > 0 && s[0] == '+' {
        s.skip(1)
    } else {
        s
    };
    if digits.len() > 0 && all_digits(digits) && digits_value(digits) <= usize::MAX {
        Some(digits_value(digits) as usize)
    } else {
        None
    }
}

proof fn lemma_digits_value_grows(s: Seq<char>, n: int)
    requires
        0 <= n <= s.len(),
    ensures
        digits_value(s.take(n)) <= digits_value(s),
    decreases s.len() - n,
{
    if n < s.len() {
        lemma_digits_value_grows(s, n + 1);
        assert(s.take(n + 1).drop_last() =~= s.take(n));
    } else {
        assert(s.take(n) =~= s);
    }
}

/// Reads a decimal number as `usize::from_str` does.
pub fn parse_usize(s: &str) -> (r: Option<usize>)
    ensures
        r == decimal_value(s@),
{
    let n = s.unicode_len();
    let start: usize = if n > 0 && s.get_char(0) == '+' {
        1
    } else {
        0
    };
    let ghost digits = s@.skip(start as int);
    assert(start == 0 ==> digits =~= s@);
    if n == start {
        return None;
    }
    let mut value: usize = 0;
    let mut i: usize = start;
    while i < n
        invariant
            start <= i <= n,
            n == s@.len(),
            digits == s@.skip(start as int),
            digits.len() == n - start,
            value == digits_value(digits.take(i - start)),
            forall|k: int| 0 <= k < i - start ==> is_digit(#[trigger] digits[k]),
            decimal_value(s@) == (if digits.len() > 0 && all_digits(digits) && digits_value(digits)
                <= usize::MAX {
                Some(digits_value(digits) as usize)
            } else {
                None
            }),
        decreases n - i,
    {
        let c = s.get_char(i);
        assert(digits[i - start] == c);
        if c < '0' || c > '9' {
            assert(!is_digit(digits[i - start]));
            return None;
        }
        let d: usize = (c as u32 - '0' as u32) as usize;
        assert(digits.take(i - start + 1).drop_last() =~= digits.take(i - start));
        proof {
            lemma_digits_value_grows(digits, i - start + 1);
        }
        if value > (usize::MAX - d) / 10 {
            assert(value * 10 + d > usize::MAX);
            return None;
        }
        value = value * 10 + d;
        i += 1;
    }
    assert(digits.take(n - start) =~= digits);
    Some(value)
}

/// The decimal digit for `d`.
pub open spec fn digit_char(d: nat) -> char {
    if d == 0 {
        '0'
    } else if d == 1 {
        '1'
    } else if d == 2 {
        '2'
    } else if d == 3 {
        '3'
    } else if d == 4 {
        '4'
    } else if d == 5 {
        '5'
    } else if d == 6 {
        '6'
    } else if d == 7 {
        '7'
    } else if d == 8 {
        '8'
    } else {
        '9'
    }
}

/// `n` in decimal, without leading zeros.
pub open spec fn decimal_digits(n: nat) -> Seq<char>
    decreases n,
{
    if n < 10 {
        seq![digit_char(n)]
    } else {
        decimal_digits(n / 10).push(digit_char(n % 10))
    }
}

fn digit_str(d: usize) -> (r: &'static str)
    requires
        d < 10,
    ensures
        r@ == seq![digit_char(d as nat)],
{
    proof {
        reveal_strlit("0");
        reveal_strlit("1");
        reveal_strlit("2");
        reveal_strlit("3");
        reveal_strlit("4");
        reveal_strlit("5");
        reveal_strlit("6");
        reveal_strlit("7");
        reveal_strlit("8");
        reveal_strlit("9");
    }
    if d == 0 {
        "0"
    } else if d == 1 {
        "1"
    } else if d == 2 {
        "2"
    } else if d == 3 {
        "3"
    } else if d == 4 {
        "4"
    } else if d == 5 {
        "5"
    } else if d == 6 {
        "6"
    } else if d == 7 {
        "7"
    } else if d == 8 {
        "8"
    } else {
        "9"
    }
}

/// `n` in decimal.
pub fn decimal(n: usize) -> (r: String)
    ensures
        r@ == decimal_digits(n as nat),
    decreases n,
{
    if n < 10 {
        digit_str(n).to_owned()
    } else {
        let mut s = decimal(n / 10);
        s.append(digit_str(n % 10));
        assert(s@ =~= decimal_digits((n / 10) as nat).push(digit_char((n % 10) as nat)));
        s
    }
}

/// Writing a number in decimal and reading it back gives the number.
pub proof fn lemma_decimal_roundtrip(n: nat)
    ensures
        all_digits(decimal_digits(n)),
        decimal_digits(n).len() > 0,
        digits_value(decimal_digits(n)) == n,
        n <= usize::MAX ==> decimal_value(decimal_digits(n)) == Some(n as usize),
    decreases n,
{
    if n < 10 {
        let s = decimal_digits(n);
        assert(s.drop_last() =~= Seq::<char>::empty());
        assert(digits_value(s.drop_last()) == 0);
    } else {
        lemma_decimal_roundtrip(n / 10);
        let s = decimal_digits(n);
        assert(s.drop_last() =~= decimal_digits(n / 10));
        assert(s.last() == digit_char(n % 10));
    }
    let s = decimal_digits(n);
    assert(is_digit(s[0]));
    assert(s[0] != '+');
}

// ── Indexed keys ─────────────────────────────────────────────────────

/// `prefix`, the index, `].` and the field: `layers[5].attention.w_q` for the
/// prefix `layers[`.
pub open spec fn indexed_key(prefix: Seq<char>, index: nat, field: Seq<char>) -> Seq<char> {
    prefix + decimal_digits(index) + seq![']', '.'] + field
}

/// Splits an indexed key into its index and field.
pub open spec fn split_indexed_key(prefix: Seq<char>, key: Seq<char>) -> Option<
    (usize, Seq<char>),
> {
    match after_prefix(key, prefix) {
        None => None,
        Some(rest) => match first_index(rest, ']') {
            None => None,
            Some(bracket) => match decimal_value(rest.take(bracket)) {
                None => None,
                Some(index) => match after_prefix(rest.skip(bracket + 1), seq!['.']) {
                    None => None,
                    Some(field) => Some((index, field)),
                },
            },
        },
    }
}

/// Builds `prefix` + index + `].` + `field`.
pub fn make_indexed_key(prefix: &str, index: usize, field: &str) -> (r: String)
    ensures
        r@ == indexed_key(prefix@, index as nat, field@),
{
    proof {
        reveal_strlit("].");
    }
    let mut s = prefix.to_owned();
    let d = decimal(index);
    s.append(d.as_str());
    s.append("].");
    s.append(field);
    assert("]."@ =~= seq![']', '.']);
    s
}

/// Parses `"layers[5].attention.w_q"` into `(5, "attention.w_q")` for the
/// prefix `"layers["`.
pub fn parse_indexed_key<'a>(prefix: &str, key: &'a str) -> (r: Option<(usize, &'a str)>)
    ensures
        match r {
            Some((index, field)) => split_indexed_key(prefix@, key@) == Some((index, field@)),
            None => split_indexed_key(prefix@, key@) is None,
        },
{
    proof {
        reveal_strlit(".");
        assert("."@ =~= seq!['.']);
    }
    let rest = match strip_prefix(key, prefix) {
        Some(rest) => rest,
        None => return None,
    };
    let bracket = match find_char(rest, ']') {
        Some(b) => b,
        None => return None,
    };
    let number = rest.substring_char(0, bracket);
    assert(number@ =~= rest@.take(bracket as int));
    let index = match parse_usize(number) {
        Some(i) => i,
        None => return None,
    };
    let n = rest.unicode_len();
    let tail = rest.substring_char(bracket + 1, n);
    assert(tail@ =~= rest@.skip(bracket + 1));
    match strip_prefix(tail, ".") {
        Some(field) => Some((index, field)),
        None => None,
    }
}

/// Splitting a key that was built from an index and a field gives both back.
pub proof fn lemma_indexed_key_roundtrip(prefix: Seq<char>, index: nat, field: Seq<char>)
    requires
        index <= usize::MAX,
    ensures
        split_indexed_key(prefix, indexed_key(prefix, index, field)) == Some(
            (index as usize, field),
        ),
{
    let key = indexed_key(prefix, index, field);
    let digits = decimal_digits(index);
    lemma_decimal_roundtrip(index);
    assert(prefix.is_prefix_of(key)) by {
        assert(key.subrange(0, prefix.len() as int) =~= prefix);
    }
    let rest = key.skip(prefix.len() as int);
    assert(rest =~= digits + seq![']', '.'] + field);
    assert forall|k: int| 0 <= k < digits.len() implies rest[k] != ']' by {
        assert(is_digit(digits[k]));
    }
    lemma_first_index_at(rest, ']', digits.len() as int);
    assert(rest.take(digits.len() as int) =~= digits);
    let tail = rest.skip(digits.len() as int + 1);
    assert(tail =~= seq!['.'] + field);
    assert(seq!['.'].is_prefix_of(tail)) by {
        assert(tail.subrange(0, 1) =~= seq!['.']);
    }
    assert(tail.skip(1) =~= field);
}


/// Splits `"3.weight"` into `3` and `"weight"`, at the first dot.
pub open spec fn split_dotted_key(key: Seq<char>) -> Option<(usize, Seq<char>)> {
    match first_index(key, '.') {
        None => None,
        Some(dot) => match decimal_value(key.take(dot)) {
            None => None,
            Some(index) => Some((index, key.skip(dot + 1))),
        },
    }
}

/// The index before the first dot, and what follows the dot.
pub fn parse_dotted_key<'a>(key: &'a str) -> (r: Option<(usize, &'a str)>)
    ensures
        match r {
            Some((index, field)) => split_dotted_key(key@) == Some((index, field@)),
            None => split_dotted_key(key@) is None,
        },
{
    let dot = match find_char(key, '.') {
        Some(d) => d,
        None => return None,
    };
    let number = key.substring_char(0, dot);
    assert(number@ =~= key@.take(dot as int));
    let index = match parse_usize(number) {
        Some(i) => i,
        None => return None,
    };
    let n = key.unicode_len();
    let field = key.substring_char(dot + 1, n);
    assert(field@ =~= key@.skip(dot + 1));
    Some((index, field))
}

/// Splitting an index, a dot and a field gives the index and the field.
pub proof fn lemma_dotted_key_roundtrip(index: nat, field: Seq<char>)
    requires
        index <= usize::MAX,
    ensures
        split_dotted_key(decimal_digits(index) + seq!['.'] + field) == Some(
            (index as usize, field),
        ),
{
    let digits = decimal_digits(index);
    let key = digits + seq!['.'] + field;
    lemma_decimal_roundtrip(index);
    assert forall|k: int| 0 <= k < digits.len() implies key[k] != '.' by {
        assert(is_digit(digits[k]));
    }
    lemma_first_index_at(key, '.', digits.len() as int);
    assert(key.take(digits.len() as int) =~= digits);
    assert(key.skip(digits.len() as int + 1) =~= field);
}

} // verus!
