//! Text handling that the platform parsers share: the characters of a
//! string, whitespace-separated fields, decimal integers as `str::parse`
//! reads them, and decimal numerals as `Display` writes them.

use vstd::prelude::*;

verus! {

/// The characters of `s`, in order.
pub fn str_chars(s: &str) -> (v: Vec<char>)
    ensures
        v@ == s@,
{
    broadcast use vstd::string::axiom_spec_iter;

    let mut v: Vec<char> = Vec::new();
    for c in it: s.chars()
        invariant
            v@ == it.seq().take(it.index()),
    {
        v.push(c);
    }
    v
}


/// Whether `c` has the Unicode `White_Space` property, which is what
/// `char::is_whitespace` tests.
pub open spec fn is_whitespace(c: char) -> bool {
    let u = c as u32;
    ||| 0x09 <= u <= 0x0d
    ||| u == 0x20
    ||| u == 0x85
    ||| u == 0xa0
    ||| u == 0x1680
    ||| 0x2000 <= u <= 0x200a
    ||| u == 0x2028
    ||| u == 0x2029
    ||| u == 0x202f
    ||| u == 0x205f
    ||| u == 0x3000
}

/// Whether `c` is whitespace, as `char::is_whitespace` decides it.
pub fn char_is_whitespace(c: char) -> (r: bool)
    ensures
        r == is_whitespace(c),
{
    let u = c as u32;
    (0x09 <= u && u <= 0x0d) || u == 0x20 || u == 0x85 || u == 0xa0 || u == 0x1680 || (0x2000
        <= u && u <= 0x200a) || u == 0x2028 || u == 0x2029 || u == 0x202f || u == 0x205f || u
        == 0x3000
}

/// The maximal runs of non-whitespace characters of `s`, in order: what
/// `str::split_whitespace` yields.
pub open spec fn whitespace_fields(s: Seq<char>) -> Seq<Seq<char>>
    decreases s.len(),
{
    if s.len() == 0 {
        seq![]
    } else {
        let init = whitespace_fields(s.drop_last());
        let c = s.last();
        if is_whitespace(c) {
            init
        } else if s.len() >= 2 && !is_whitespace(s[s.len() - 2]) {
            init.drop_last().push(init.last().push(c))
        } else {
            init.push(seq![c])
        }
    }
}

/// The fields of a prefix that ends in a non-whitespace character end with a
/// field, so the list is not empty.
proof fn lemma_fields_nonempty(s: Seq<char>)
    requires
        s.len() > 0,
        !is_whitespace(s.last()),
    ensures
        whitespace_fields(s).len() > 0,
    decreases s.len(),
{
}

/// Splits `s` into its whitespace-separated fields.
pub fn split_whitespace(s: &[char]) -> (fields: Vec<Vec<char>>)
    ensures
        fields@.len() == whitespace_fields(s@).len(),
        forall|k: int| 0 <= k < fields@.len() ==> #[trigger] fields@[k]@ == whitespace_fields(s@)[k],
{
    let mut done: Vec<Vec<char>> = Vec::new();
    let mut cur: Vec<char> = Vec::new();
    let mut i: usize = 0;
    while i < s.len()
        invariant
            i <= s@.len(),
            cur@.len() > 0 <==> (i > 0 && !is_whitespace(s@[i - 1])),
            ({
                let f = whitespace_fields(s@.take(i as int));
                &&& cur@.len() == 0 ==> f.len() == done@.len()
                &&& cur@.len() > 0 ==> f.len() == done@.len() + 1 && f.last() == cur@
                &&& forall|k: int| 0 <= k < done@.len() ==> #[trigger] done@[k]@ == f[k]
            }),
        decreases s@.len() - i,
    {
        let c = s[i];
        let ghost prev = s@.take(i as int);
        assert(s@.take(i + 1).drop_last() =~= prev);
        if char_is_whitespace(c) {
            if cur.len() > 0 {
                let finished = cur;
                cur = Vec::new();
                done.push(finished);
            }
        } else {
            if cur.len() > 0 {
                assert(prev.len() >= 1 && s@.take(i + 1)[i - 1] == s@[i - 1]);
            }
            cur.push(c);
        }
        i = i + 1;
    }
    assert(s@.take(s@.len() as int) =~= s@);
    if cur.len() > 0 {
        done.push(cur);
    }
    done
}

/// The value of a string of decimal digits.
pub open spec fn digits_value(s: Seq<char>) -> int
    decreases s.len(),
{
    if s.len() == 0 {
        0
    } else {
        digits_value(s.drop_last()) * 10 + (s.last() as int - '0' as int)
    }
}

/// Whether every character of `s` is an ASCII decimal digit.
pub open spec fn all_digits(s: Seq<char>) -> bool {
    forall|i: int| 0 <= i < s.len() ==> '0' <= #[trigger] s[i] <= '9'
}

/// What `str::parse` gives for an integer type whose values are
/// `min..=max`, signed or not: an optional `+` (or, for a signed type, `-`),
/// then one or more ASCII digits, whose value must fit.
pub open spec fn parse_integer(s: Seq<char>, signed: bool, min: int, max: int) -> Option<int> {
    let negative = signed && s.len() > 0 && s[0] == '-';
    let digits = if s.len() > 0 && (s[0] == '+' || negative) {
        s.drop_first()
    } else {
        s
    };
    let value = if negative {
        -digits_value(digits)
    } else {
        digits_value(digits)
    };
    if digits.len() > 0 && all_digits(digits) && min <= value <= max {
        Some(value)
    } else {
        None
    }
}

/// What `s.parse::<u32>()` gives, as an option.
pub open spec fn parse_u32_spec(s: Seq<char>) -> Option<u32> {
    match parse_integer(s, false, 0, u32::MAX as int) {
        Some(v) => Some(v as u32),
        None => None,
    }
}

/// What `s.parse::<i64>()` gives, as an option.
pub open spec fn parse_i64_spec(s: Seq<char>) -> Option<i64> {
    match parse_integer(s, true, i64::MIN as int, i64::MAX as int) {
        Some(v) => Some(v as i64),
        None => None,
    }
}

proof fn lemma_digits_value_nonneg(s: Seq<char>)
    requires
        all_digits(s),
    ensures
        digits_value(s) >= 0,
    decreases s.len(),
{
    if s.len() > 0 {
        assert(all_digits(s.drop_last()));
        lemma_digits_value_nonneg(s.drop_last());
    }
}

/// The value of the digits `s[start..]` if all of them are digits, there is
/// at least one, and the value is at most `limit`.
fn digits_up_to(s: &Vec<char>, start: usize, limit: u64) -> (r: Option<u64>)
    requires
        start <= s@.len(),
    ensures
        ({
            let d = s@.subrange(start as int, s@.len() as int);
            match r {
                Some(v) => d.len() > 0 && all_digits(d) && v == digits_value(d) && v <= limit,
                None => !(d.len() > 0 && all_digits(d) && digits_value(d) <= limit),
            }
        }),
{
    let ghost d = s@.subrange(start as int, s@.len() as int);
    if start == s.len() {
        return None;
    }
    let mut acc: u128 = 0;
    let mut over = false;
    let mut i: usize = start;
    while i < s.len()
        invariant
            start <= i <= s@.len(),
            d == s@.subrange(start as int, s@.len() as int),
            all_digits(s@.subrange(start as int, i as int)),
            !over ==> acc == digits_value(s@.subrange(start as int, i as int)) && acc <= limit,
            over ==> digits_value(s@.subrange(start as int, i as int)) > limit,
        decreases s@.len() - i,
    {
        let c = s[i];
        if !('0' <= c && c <= '9') {
            assert(d[i - start] == c);
            return None;
        }
        let ghost pre = s@.subrange(start as int, i as int);
        let ghost next = s@.subrange(start as int, i + 1);
        assert(next.drop_last() =~= pre);
        assert(all_digits(next));
        proof {
            lemma_digits_value_nonneg(pre);
        }
        if !over {
            let digit = (c as u32 - '0' as u32) as u128;
            acc = acc * 10 + digit;
            if acc > limit as u128 {
                over = true;
            }
        }
        i = i + 1;
    }
    assert(s@.subrange(start as int, i as int) =~= d);
    if over {
        None
    } else {
        Some(acc as u64)
    }
}

/// Reads `s` as `s.parse::<u32>().ok()` does.
pub fn parse_u32(s: &Vec<char>) -> (r: Option<u32>)
    ensures
        r == parse_u32_spec(s@),
{
    let start: usize = if s.len() > 0 && s[0] == '+' {
        1
    } else {
        0
    };
    let ghost digits = s@.subrange(start as int, s@.len() as int);
    assert(start == 1 ==> digits =~= s@.drop_first());
    assert(start == 0 ==> digits =~= s@);
    match digits_up_to(s, start, 0xffff_ffff) {
        Some(v) => Some(v as u32),
        None => None,
    }
}

/// Reads `s` as `s.parse::<i64>().ok()` does.
pub fn parse_i64(s: &Vec<char>) -> (r: Option<i64>)
    ensures
        r == parse_i64_spec(s@),
{
    let negative = s.len() > 0 && s[0] == '-';
    let start: usize = if s.len() > 0 && (s[0] == '+' || negative) {
        1
    } else {
        0
    };
    let ghost digits = s@.subrange(start as int, s@.len() as int);
    assert(start == 1 ==> digits =~= s@.drop_first());
    assert(start == 0 ==> digits =~= s@);
    if negative {
        match digits_up_to(s, start, 0x8000_0000_0000_0000) {
            Some(m) => {
                let v = 0i128 - m as i128;
                Some(v as i64)
            },
            None => None,
        }
    } else {
        match digits_up_to(s, start, 0x7fff_ffff_ffff_ffff) {
            Some(m) => Some(m as i64),
            None => None,
        }
    }
}


/// The ASCII bytes of `n` written in decimal, as `Display` writes it.
pub open spec fn decimal_bytes(n: nat) -> Seq<u8>
    decreases n,
{
    if n < 10 {
        seq![(48 + n) as u8]
    } else {
        decimal_bytes(n / 10).push((48 + n % 10) as u8)
    }
}

/// The characters of `n` written in decimal, as `Display` writes it.
pub open spec fn decimal_chars(n: nat) -> Seq<char>
    decreases n,
{
    if n < 10 {
        seq![digit_char(n)]
    } else {
        decimal_chars(n / 10).push(digit_char(n % 10))
    }
}

/// The decimal digit character for `d`.
pub open spec fn digit_char(d: nat) -> char {
    if d == 0 {
        '0'
    } else if d == 1 {
        '1'
    } else if d == 2 {
        '2'
    } else if d == 3 {
        '3'
    } else if d == 4 {
        '4'
    } else if d == 5 {
        '5'
    } else if d == 6 {
        '6'
    } else if d == 7 {
        '7'
    } else if d == 8 {
        '8'
    } else {
        '9'
    }
}

/// Appends the decimal numeral of `n` to `out`.
pub fn push_decimal_bytes(out: &mut Vec<u8>, n: u32)
    ensures
        final(out)@ == old(out)@ + decimal_bytes(n as nat),
    decreases n,
{
    if n >= 10 {
        push_decimal_bytes(out, n / 10);
    }
    out.push((48 + n % 10) as u8);
    assert(n < 10 ==> decimal_bytes(n as nat) == seq![(48 + n) as u8]);
}

/// The one-character string of decimal digit `d`.
fn digit_str(d: u32) -> (s: &'static str)
    requires
        d < 10,
    ensures
        s@ == seq![digit_char(d as nat)],
{
    if d == 0 {
        proof { reveal_strlit("0"); }
        "0"
    } else if d == 1 {
        proof { reveal_strlit("1"); }
        "1"
    } else if d == 2 {
        proof { reveal_strlit("2"); }
        "2"
    } else if d == 3 {
        proof { reveal_strlit("3"); }
        "3"
    } else if d == 4 {
        proof { reveal_strlit("4"); }
        "4"
    } else if d == 5 {
        proof { reveal_strlit("5"); }
        "5"
    } else if d == 6 {
        proof { reveal_strlit("6"); }
        "6"
    } else if d == 7 {
        proof { reveal_strlit("7"); }
        "7"
    } else if d == 8 {
        proof { reveal_strlit("8"); }
        "8"
    } else {
        proof { reveal_strlit("9"); }
        "9"
    }
}

/// Appends the decimal numeral of `n` to `out`.
pub fn push_decimal_str(out: &mut String, n: u32)
    ensures
        final(out)@ == old(out)@ + decimal_chars(n as nat),
    decreases n,
{
    if n >= 10 {
        push_decimal_str(out, n / 10);
    }
    out.append(digit_str(n % 10));
    assert(n < 10 ==> decimal_chars(n as nat) == seq![digit_char(n as nat)]);
}


proof fn lemma_digit_char(d: nat)
    requires
        d < 10,
    ensures
        '0' <= digit_char(d) <= '9',
        digit_char(d) as int - '0' as int == d,
{
}

/// A decimal numeral is a non-empty string of digits whose value is the
/// number.
pub proof fn lemma_decimal_chars_digits(n: nat)
    ensures
        decimal_chars(n).len() > 0,
        all_digits(decimal_chars(n)),
        digits_value(decimal_chars(n)) == n,
    decreases n,
{
    if n < 10 {
        lemma_digit_char(n);
        let s = decimal_chars(n);
        assert(s.drop_last() =~= Seq::<char>::empty());
        assert(digits_value(s.drop_last()) == 0);
        assert(digits_value(s) == digits_value(s.drop_last()) * 10 + (s.last() as int - '0' as int));
    } else {
        lemma_decimal_chars_digits(n / 10);
        lemma_digit_char(n % 10);
        let s = decimal_chars(n);
        assert(s.drop_last() =~= decimal_chars(n / 10));
        assert(s.last() == digit_char(n % 10));
        assert(digits_value(s) == digits_value(s.drop_last()) * 10 + (s.last() as int - '0' as int));
        assert((n / 10) * 10 + n % 10 == n);
        assert forall|i: int| 0 <= i < s.len() implies '0' <= #[trigger] s[i] <= '9' by {
            if i < s.len() - 1 {
                assert(s[i] == decimal_chars(n / 10)[i]);
            }
        }
    }
}

/// Reading back what `Display` writes: the decimal numeral of any `u32`
/// parses (`str::parse::<u32>`) to that number.
pub proof fn lemma_parse_decimal_roundtrip(n: u32)
    ensures
        parse_u32_spec(decimal_chars(n as nat)) == Some(n),
{
    lemma_decimal_chars_digits(n as nat);
    let s = decimal_chars(n as nat);
    assert('0' <= s[0] <= '9');
}

/// The value of a string of ASCII digit bytes.
pub open spec fn digit_bytes_value(s: Seq<u8>) -> int
    decreases s.len(),
{
    if s.len() == 0 {
        0
    } else {
        digit_bytes_value(s.drop_last()) * 10 + (s.last() - 48)
    }
}

proof fn lemma_decimal_bytes_shape(n: nat)
    ensures
        decimal_bytes(n).len() > 0,
        forall|i: int| 0 <= i < decimal_bytes(n).len() ==> 48u8 <= #[trigger] decimal_bytes(n)[i] <= 57u8,
        digit_bytes_value(decimal_bytes(n)) == n,
        n >= 1 ==> decimal_bytes(n)[0] != 48u8,
        n < 10 ==> decimal_bytes(n).len() == 1,
        n >= 10 ==> decimal_bytes(n).len() == decimal_bytes(n / 10).len() + 1,
    decreases n,
{
    if n < 10 {
        let s = decimal_bytes(n);
        assert(s.drop_last() =~= Seq::<u8>::empty());
        assert(digit_bytes_value(s.drop_last()) == 0);
        assert(digit_bytes_value(s) == digit_bytes_value(s.drop_last()) * 10 + (s.last() - 48));
    } else {
        lemma_decimal_bytes_shape(n / 10);
        let s = decimal_bytes(n);
        assert(s.drop_last() =~= decimal_bytes(n / 10));
        assert(s.last() == (48 + n % 10) as u8);
        assert(digit_bytes_value(s) == digit_bytes_value(s.drop_last()) * 10 + (s.last() - 48));
        assert((n / 10) * 10 + n % 10 == n);
        assert forall|i: int| 0 <= i < s.len() implies 48u8 <= #[trigger] s[i] <= 57u8 by {
            if i < s.len() - 1 {
                assert(s[i] == decimal_bytes(n / 10)[i]);
            }
        }
        assert(s[0] == decimal_bytes(n / 10)[0]);
    }
}

/// The decimal numeral of every number below ten billion is one to ten
/// digits with no leading zero (save "0" itself), and reads back as the
/// number.
pub proof fn lemma_decimal_bytes_well_formed(n: nat)
    ensures
        0 < decimal_bytes(n).len(),
        n < 10_000_000_000 ==> decimal_bytes(n).len() <= 10,
        !(decimal_bytes(n)[0] == 48u8 && decimal_bytes(n).len() > 1),
        forall|i: int| 0 <= i < decimal_bytes(n).len() ==> 48u8 <= #[trigger] decimal_bytes(n)[i] <= 57u8,
        digit_bytes_value(decimal_bytes(n)) == n,
{
    lemma_decimal_bytes_shape(n);
    if n < 10_000_000_000 {
        lemma_decimal_bytes_len(n);
    }
}

proof fn lemma_decimal_bytes_len(n: nat)
    requires
        n < 10_000_000_000,
    ensures
        decimal_bytes(n).len() <= 10,
{
    lemma_decimal_bytes_shape(n);
    let n1 = n / 10;
    let n2 = n1 / 10;
    let n3 = n2 / 10;
    let n4 = n3 / 10;
    let n5 = n4 / 10;
    let n6 = n5 / 10;
    let n7 = n6 / 10;
    let n8 = n7 / 10;
    let n9 = n8 / 10;
    lemma_decimal_bytes_shape(n1);
    lemma_decimal_bytes_shape(n2);
    lemma_decimal_bytes_shape(n3);
    lemma_decimal_bytes_shape(n4);
    lemma_decimal_bytes_shape(n5);
    lemma_decimal_bytes_shape(n6);
    lemma_decimal_bytes_shape(n7);
    lemma_decimal_bytes_shape(n8);
    lemma_decimal_bytes_shape(n9);
    assert(n9 < 10);
}

/// Different numbers have different decimal numerals.
pub proof fn lemma_decimal_bytes_injective(a: nat, b: nat)
    requires
        decimal_bytes(a) == decimal_bytes(b),
    ensures
        a == b,
{
    lemma_decimal_bytes_shape(a);
    lemma_decimal_bytes_shape(b);
}

/// Each field of `whitespace_fields(s)` is non-empty, holds no whitespace,
/// and is a run of consecutive characters of `s`.
pub proof fn lemma_whitespace_fields_shape(s: Seq<char>)
    ensures
        forall|k: int| 0 <= k < whitespace_fields(s).len() ==> {
            let f = #[trigger] whitespace_fields(s)[k];
            &&& f.len() > 0
            &&& forall|j: int| 0 <= j < f.len() ==> !is_whitespace(#[trigger] f[j])
        },
    decreases s.len(),
{
    if s.len() > 0 {
        lemma_whitespace_fields_shape(s.drop_last());
        let init = whitespace_fields(s.drop_last());
        let c = s.last();
        if !is_whitespace(c) && s.len() >= 2 && !is_whitespace(s[s.len() - 2]) {
            lemma_fields_nonempty(s.drop_last());
            let fields = whitespace_fields(s);
            assert forall|k: int| 0 <= k < fields.len() implies {
                let f = #[trigger] fields[k];
                &&& f.len() > 0
                &&& forall|j: int| 0 <= j < f.len() ==> !is_whitespace(#[trigger] f[j])
            } by {
                if k < fields.len() - 1 {
                    assert(fields[k] == init[k]);
                } else {
                    let f = fields[k];
                    assert(f == init.last().push(c));
                    assert forall|j: int| 0 <= j < f.len() implies !is_whitespace(#[trigger] f[j]) by {
                        if j < f.len() - 1 {
                            assert(f[j] == init[init.len() - 1][j]);
                        }
                    }
                }
            }
        } else if !is_whitespace(c) {
            let fields = whitespace_fields(s);
            assert forall|k: int| 0 <= k < fields.len() implies {
                let f = #[trigger] fields[k];
                &&& f.len() > 0
                &&& forall|j: int| 0 <= j < f.len() ==> !is_whitespace(#[trigger] f[j])
            } by {
                if k < fields.len() - 1 {
                    assert(fields[k] == init[k]);
                }
            }
        }
    }
}


/// The index of the last `c` among the first `i` characters of `s`, or -1
/// when there is none.
pub open spec fn last_index_of(s: Seq<char>, c: char, i: int) -> int
    decreases i,
{
    if i <= 0 {
        -1
    } else if s[i - 1] == c {
        i - 1
    } else {
        last_index_of(s, c, i - 1)
    }
}

/// One past the index of the last `c` in `s`, or 0 when `s` has none.
pub fn find_last(s: &[char], c: char) -> (r: usize)
    ensures
        r == last_index_of(s@, c, s@.len() as int) + 1,
        r <= s@.len(),
{
    let mut i = s.len();
    while i > 0 && s[i - 1] != c
        invariant
            i <= s@.len(),
            last_index_of(s@, c, s@.len() as int) == last_index_of(s@, c, i as int),
        decreases i,
    {
        i = i - 1;
    }
    i
}


/// Fields split at a whitespace character do not run across it: the fields
/// of `x + y`, where `x` is empty or ends in whitespace, are the fields of
/// `x` followed by those of `y`.
pub proof fn lemma_whitespace_fields_concat(x: Seq<char>, y: Seq<char>)
    requires
        x.len() == 0 || is_whitespace(x.last()),
    ensures
        whitespace_fields(x + y) == whitespace_fields(x) + whitespace_fields(y),
    decreases y.len(),
{
    if y.len() == 0 {
        assert(x + y =~= x);
        assert(whitespace_fields(x) + whitespace_fields(y) =~= whitespace_fields(x));
    } else {
        let yp = y.drop_last();
        let c = y.last();
        let s = x + y;
        lemma_whitespace_fields_concat(x, yp);
        assert(s.drop_last() =~= x + yp);
        assert(s.last() == c);
        let fx = whitespace_fields(x);
        let fy = whitespace_fields(yp);
        if is_whitespace(c) {
        } else if yp.len() > 0 && !is_whitespace(yp.last()) {
            assert(s[s.len() - 2] == yp.last());
            lemma_fields_nonempty(yp);
            let init = fx + fy;
            assert(init.drop_last() =~= fx + fy.drop_last());
            assert(init.last() == fy.last());
            assert(y[y.len() - 2] == yp.last());
            assert(whitespace_fields(s) =~= fx + whitespace_fields(y));
        } else {
            if s.len() >= 2 {
                if yp.len() == 0 {
                    assert(s[s.len() - 2] == x.last());
                } else {
                    assert(s[s.len() - 2] == yp.last());
                }
            }
            if y.len() >= 2 {
                assert(y[y.len() - 2] == yp.last());
            }
            assert(whitespace_fields(s) =~= fx + whitespace_fields(y));
        }
    }
}

/// A non-empty run of non-whitespace characters is one field.
pub proof fn lemma_whitespace_fields_word(w: Seq<char>)
    requires
        w.len() > 0,
        forall|j: int| 0 <= j < w.len() ==> !is_whitespace(#[trigger] w[j]),
    ensures
        whitespace_fields(w) == seq![w],
    decreases w.len(),
{
    if w.len() == 1 {
        assert(w.drop_last() =~= Seq::<char>::empty());
        assert(whitespace_fields(w.drop_last()) =~= Seq::<Seq<char>>::empty());
        assert(!is_whitespace(w.last()));
        assert(seq![w.last()] =~= w);
        assert(Seq::<Seq<char>>::empty().push(seq![w.last()]) =~= seq![w]);
    } else {
        let wp = w.drop_last();
        lemma_whitespace_fields_word(wp);
        assert(w[w.len() - 2] == wp.last());
        assert(!is_whitespace(w[w.len() - 2]));
        assert(!is_whitespace(w.last()));
        assert(wp.push(w.last()) =~= w);
        assert(seq![wp].drop_last().push(wp.push(w.last())) =~= seq![w]);
    }
}

/// A word followed by one whitespace character has that word as its only
/// field.
pub proof fn lemma_whitespace_fields_word_space(w: Seq<char>, c: char)
    requires
        w.len() > 0,
        forall|j: int| 0 <= j < w.len() ==> !is_whitespace(#[trigger] w[j]),
        is_whitespace(c),
    ensures
        whitespace_fields(w.push(c)) == seq![w],
{
    lemma_whitespace_fields_word(w);
    assert(w.push(c).drop_last() =~= w);
}

/// A decimal numeral holds no whitespace.
pub proof fn lemma_decimal_chars_no_whitespace(n: nat)
    ensures
        decimal_chars(n).len() > 0,
        forall|j: int| 0 <= j < decimal_chars(n).len() ==> !is_whitespace(#[trigger] decimal_chars(n)[j]),
{
    lemma_decimal_chars_digits(n);
    assert forall|j: int| 0 <= j < decimal_chars(n).len() implies !is_whitespace(#[trigger] decimal_chars(n)[j]) by {
        assert('0' <= decimal_chars(n)[j] <= '9');
    }
}

/// The last `c` among the first `i` characters is at `k` when `s[k]` is `c`
/// and no `c` follows it before `i`.
pub proof fn lemma_last_index_at(s: Seq<char>, c: char, i: int, k: int)
    requires
        0 <= k < i <= s.len(),
        s[k] == c,
        forall|j: int| k < j < i ==> s[j] != c,
    ensures
        last_index_of(s, c, i) == k,
    decreases i,
{
    if i - 1 != k {
        lemma_last_index_at(s, c, i - 1, k);
    }
}

} // verus!
