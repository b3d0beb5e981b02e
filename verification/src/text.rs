//! Text helpers: decimal formatting, integer parsing with the standard
//! library's rules, whitespace trimming and splitting on a separator.
use vstd::prelude::*;
use vstd::string::*;

verus! {

// ---------------------------------------------------------------------------
// Building strings
// ---------------------------------------------------------------------------

/// Appends one character to a string (`String::push`).
#[verifier::external_body]
pub(crate) fn push_char(s: &mut String, c: char)
    ensures
        final(s)@ == old(s)@.push(c),
{
    s.push(c);
}

/// A string holding the given text.
pub fn text(s: &str) -> (r: String)
    ensures
        r@ == s@,
{
    String::from_str(s)
}

/// Appends `t` to `s`.
pub fn append_str(s: &mut String, t: &str)
    ensures
        final(s)@ == old(s)@ + t@,
{
    s.append(t);
}

// ---------------------------------------------------------------------------
// Decimal formatting
// ---------------------------------------------------------------------------

/// The character of the decimal digit `d`.
pub open spec fn digit_char(d: nat) -> char {
    (d + 48) as char
}

/// The decimal text of a natural number, as `Display` writes it.
pub open spec fn dec_nat(n: nat) -> Seq<char>
    decreases n,
{
    if n < 10 {
        seq![digit_char(n)]
    } else {
        dec_nat(n / 10).push(digit_char(n % 10))
    }
}

/// The decimal text of an integer, with a leading `-` when it is negative.
pub open spec fn dec_int(n: int) -> Seq<char> {
    if n < 0 {
        seq!['-'] + dec_nat((-n) as nat)
    } else {
        dec_nat(n as nat)
    }
}

fn digit(d: u64) -> (c: char)
    requires
        d < 10,
    ensures
        c == digit_char(d as nat),
{
    let b: u8 = (d as u8) + 48;
    b as char
}

/// Appends the decimal text of `n` to `s`.
pub fn append_u64(s: &mut String, n: u64)
    ensures
        final(s)@ == old(s)@ + dec_nat(n as nat),
    decreases n,
{
    if n >= 10 {
        append_u64(s, n / 10);
    }
    push_char(s, digit(n % 10));
    assert(dec_nat(n as nat) == if n < 10 {
        seq![digit_char(n as nat)]
    } else {
        dec_nat((n / 10) as nat).push(digit_char((n % 10) as nat))
    });
}

/// Appends the decimal text of `n` to `s`.
pub fn append_i64(s: &mut String, n: i64)
    ensures
        final(s)@ == old(s)@ + dec_int(n as int),
{
    if n < 0 {
        push_char(s, '-');
        let m: u64 = if n == i64::MIN {
            9223372036854775808u64
        } else {
            (-n) as u64
        };
        append_u64(s, m);
    } else {
        append_u64(s, n as u64);
    }
}

/// The decimal text of an unsigned integer.
pub fn u64_text(n: u64) -> (r: String)
    ensures
        r@ == dec_nat(n as nat),
{
    let mut s = String::new();
    append_u64(&mut s, n);
    s
}

/// The decimal text of a natural number is never empty.
pub proof fn lemma_dec_nat_len(n: nat)
    ensures
        dec_nat(n).len() >= 1,
    decreases n,
{
    if n >= 10 {
        lemma_dec_nat_len(n / 10);
    }
}

// ---------------------------------------------------------------------------
// Character sequences of strings
// ---------------------------------------------------------------------------

/// The characters of `s`, in order.
pub fn chars_of(s: &str) -> (v: Vec<char>)
    ensures
        v@ == s@,
{
    let n = s.unicode_len();
    let mut v: Vec<char> = Vec::new();
    let mut i: usize = 0;
    while i < n
        invariant
            n == s@.len(),
            i <= n,
            v@ == s@.subrange(0, i as int),
        decreases n - i,
    {
        let c = s.get_char(i);
        v.push(c);
        i = i + 1;
        assert(v@ =~= s@.subrange(0, i as int));
    }
    assert(v@ =~= s@);
    v
}

/// A string made of the given characters.
pub fn string_of(v: &Vec<char>) -> (s: String)
    ensures
        s@ == v@,
{
    let mut s = String::new();
    let mut i: usize = 0;
    while i < v.len()
        invariant
            i <= v.len(),
            s@ == v@.subrange(0, i as int),
        decreases v.len() - i,
    {
        push_char(&mut s, v[i]);
        i = i + 1;
        assert(s@ =~= v@.subrange(0, i as int));
    }
    assert(s@ =~= v@);
    s
}

/// Whether two strings hold the same characters.
pub fn str_eq(a: &str, b: &str) -> (r: bool)
    ensures
        r == (a@ == b@),
{
    let va = chars_of(a);
    let vb = chars_of(b);
    if va.len() != vb.len() {
        return false;
    }
    let mut i: usize = 0;
    while i < va.len()
        invariant
            va@ == a@,
            vb@ == b@,
            va.len() == vb.len(),
            i <= va.len(),
            forall|j: int| 0 <= j < i ==> va@[j] == vb@[j],
        decreases va.len() - i,
    {
        if va[i] != vb[i] {
            return false;
        }
        i = i + 1;
    }
    assert(va@ =~= vb@);
    true
}

// ---------------------------------------------------------------------------
// Whitespace trimming (`str::trim`)
// ---------------------------------------------------------------------------

/// Unicode `White_Space`, the property that `char::is_whitespace` tests.
pub open spec fn is_white_space(c: char) -> bool {
    let n = c as u32;
    ||| 9 <= n <= 13
    ||| n == 32
    ||| n == 0x85
    ||| n == 0xA0
    ||| n == 0x1680
    ||| 0x2000 <= n <= 0x200A
    ||| n == 0x2028
    ||| n == 0x2029
    ||| n == 0x202F
    ||| n == 0x205F
    ||| n == 0x3000
}

/// `s` without its leading white space.
pub open spec fn trim_start(s: Seq<char>) -> Seq<char>
    decreases s.len(),
{
    if s.len() > 0 && is_white_space(s[0]) {
        trim_start(s.drop_first())
    } else {
        s
    }
}

/// `s` without its trailing white space.
pub open spec fn trim_end(s: Seq<char>) -> Seq<char>
    decreases s.len(),
{
    if s.len() > 0 && is_white_space(s.last()) {
        trim_end(s.drop_last())
    } else {
        s
    }
}

/// `s` without leading and trailing white space.
pub open spec fn trimmed(s: Seq<char>) -> Seq<char> {
    trim_end(trim_start(s))
}

fn white_space(c: char) -> (r: bool)
    ensures
        r == is_white_space(c),
{
    let n = c as u32;
    (9 <= n && n <= 13) || n == 32 || n == 0x85 || n == 0xA0 || n == 0x1680 || (0x2000 <= n && n
        <= 0x200A) || n == 0x2028 || n == 0x2029 || n == 0x202F || n == 0x205F || n == 0x3000
}

proof fn lemma_trim_start_skip(s: Seq<char>, i: int)
    requires
        0 <= i <= s.len(),
        forall|j: int| 0 <= j < i ==> is_white_space(#[trigger] s[j]),
    ensures
        trim_start(s) == trim_start(s.subrange(i, s.len() as int)),
    decreases i,
{
    if i > 0 {
        assert(s.drop_first().subrange(i - 1, s.drop_first().len() as int) =~= s.subrange(
            i,
            s.len() as int,
        ));
        lemma_trim_start_skip(s.drop_first(), i - 1);
    } else {
        assert(s.subrange(0, s.len() as int) =~= s);
    }
}

proof fn lemma_trim_end_skip(s: Seq<char>, k: int)
    requires
        0 <= k <= s.len(),
        forall|j: int| k <= j < s.len() ==> is_white_space(#[trigger] s[j]),
    ensures
        trim_end(s) == trim_end(s.subrange(0, k)),
    decreases s.len() - k,
{
    if k < s.len() {
        assert(s.drop_last().subrange(0, k) =~= s.subrange(0, k));
        lemma_trim_end_skip(s.drop_last(), k);
    } else {
        assert(s.subrange(0, k) =~= s);
    }
}

/// The text of `s` without leading and trailing white space (`str::trim`).
pub fn trim(s: &str) -> (r: String)
    ensures
        r@ == trimmed(s@),
{
    let v = chars_of(s);
    let n = v.len();
    let mut a: usize = 0;
    while a < n && white_space(v[a])
        invariant
            v@ == s@,
            n == v.len(),
            a <= n,
            forall|j: int| 0 <= j < a ==> is_white_space(#[trigger] v@[j]),
        decreases n - a,
    {
        a = a + 1;
    }
    proof {
        lemma_trim_start_skip(v@, a as int);
    }
    let ghost rest = v@.subrange(a as int, n as int);
    assert(trim_start(v@) == rest) by {
        if rest.len() > 0 {
            assert(rest[0] == v@[a as int]);
        }
    }
    let mut b: usize = n;
    while b > a && white_space(v[b - 1])
        invariant
            v@ == s@,
            n == v.len(),
            a <= b <= n,
            rest == v@.subrange(a as int, n as int),
            forall|j: int| b <= j < n ==> is_white_space(#[trigger] v@[j]),
        decreases b - a,
    {
        b = b - 1;
    }
    proof {
        assert forall|j: int| (b - a) <= j < rest.len() implies is_white_space(#[trigger] rest[j]) by {
            assert(rest[j] == v@[a + j]);
        }
        lemma_trim_end_skip(rest, (b - a) as int);
        let kept = rest.subrange(0, (b - a) as int);
        assert(kept =~= v@.subrange(a as int, b as int));
        if kept.len() > 0 {
            assert(kept.last() == v@[b - 1]);
        }
        assert(trim_end(kept) == kept);
    }
    let mut out: Vec<char> = Vec::new();
    let mut i: usize = a;
    while i < b
        invariant
            a <= i <= b <= n,
            n == v.len(),
            out@ == v@.subrange(a as int, i as int),
        decreases b - i,
    {
        out.push(v[i]);
        i = i + 1;
        assert(out@ =~= v@.subrange(a as int, i as int));
    }
    string_of(&out)
}

// ---------------------------------------------------------------------------
// Splitting on a separator (`str::split` with a `char` pattern)
// ---------------------------------------------------------------------------

/// The pieces of `s` between occurrences of `sep`, in order; there is always
/// one piece more than there are separators.
pub open spec fn split_on(s: Seq<char>, sep: char) -> Seq<Seq<char>>
    decreases s.len(),
{
    if s.len() == 0 {
        seq![Seq::<char>::empty()]
    } else {
        let rest = split_on(s.drop_last(), sep);
        if s.last() == sep {
            rest.push(Seq::<char>::empty())
        } else {
            rest.update(rest.len() - 1, rest.last().push(s.last()))
        }
    }
}

proof fn lemma_split_on_nonempty(s: Seq<char>, sep: char)
    ensures
        split_on(s, sep).len() >= 1,
    decreases s.len(),
{
    if s.len() > 0 {
        lemma_split_on_nonempty(s.drop_last(), sep);
    }
}

/// The pieces of `s` between occurrences of `sep`.
pub fn split(s: &str, sep: char) -> (r: Vec<String>)
    ensures
        r@.len() == split_on(s@, sep).len(),
        forall|i: int| 0 <= i < r@.len() ==> (#[trigger] r@[i])@ == split_on(s@, sep)[i],
{
    let v = chars_of(s);
    let mut pieces: Vec<String> = Vec::new();
    let mut cur: Vec<char> = Vec::new();
    let mut i: usize = 0;
    while i < v.len()
        invariant
            v@ == s@,
            i <= v.len(),
            pieces@.len() + 1 == split_on(v@.subrange(0, i as int), sep).len(),
            forall|k: int|
                0 <= k < pieces@.len() ==> (#[trigger] pieces@[k])@ == split_on(
                    v@.subrange(0, i as int),
                    sep,
                )[k],
            cur@ == split_on(v@.subrange(0, i as int), sep).last(),
        decreases v.len() - i,
    {
        let ghost prefix = v@.subrange(0, i as int);
        let ghost next = v@.subrange(0, i + 1);
        assert(next.drop_last() =~= prefix);
        proof {
            lemma_split_on_nonempty(prefix, sep);
        }
        let c = v[i];
        if c == sep {
            let piece = string_of(&cur);
            pieces.push(piece);
            cur = Vec::new();
        } else {
            cur.push(c);
        }
        i = i + 1;
        assert forall|k: int| 0 <= k < pieces@.len() implies (#[trigger] pieces@[k])@ == split_on(
            v@.subrange(0, i as int),
            sep,
        )[k] by {
            assert(v@.subrange(0, i as int) == next);
        }
        assert(v@.subrange(0, i as int) == next);
    }
    assert(v@.subrange(0, v.len() as int) =~= v@);
    proof {
        lemma_split_on_nonempty(v@, sep);
    }
    let last = string_of(&cur);
    pieces.push(last);
    assert forall|k: int| 0 <= k < pieces@.len() implies (#[trigger] pieces@[k])@ == split_on(
        s@,
        sep,
    )[k] by {
        if k < pieces@.len() - 1 {
        }
    }
    pieces
}

// ---------------------------------------------------------------------------
// Integer parsing (`str::parse` for `u32` and `i32`)
// ---------------------------------------------------------------------------

/// Why a text is not a decimal integer of the wanted type; the variants and
/// their messages are those of `core::num::IntErrorKind`.
#[derive(Debug, Clone, Copy, PartialEq, Eq, Structural)]
pub enum IntParseError {
    Empty,
    InvalidDigit,
    PosOverflow,
    NegOverflow,
}

/// The message that `ParseIntError`'s `Display` writes for each kind.
pub open spec fn int_error_message(e: IntParseError) -> Seq<char> {
    match e {
        IntParseError::Empty => "cannot parse integer from empty string"@,
        IntParseError::InvalidDigit => "invalid digit found in string"@,
        IntParseError::PosOverflow => "number too large to fit in target type"@,
        IntParseError::NegOverflow => "number too small to fit in target type"@,
    }
}

impl IntParseError {
    /// The error's message.
    pub fn message(&self) -> (r: String)
        ensures
            r@ == int_error_message(*self),
    {
        match self {
            IntParseError::Empty => text("cannot parse integer from empty string"),
            IntParseError::InvalidDigit => text("invalid digit found in string"),
            IntParseError::PosOverflow => text("number too large to fit in target type"),
            IntParseError::NegOverflow => text("number too small to fit in target type"),
        }
    }
}

/// Whether `c` is an ASCII decimal digit.
pub open spec fn is_digit(c: char) -> bool {
    '0' <= c && c <= '9'
}

/// The value of the decimal digit `c`.
pub open spec fn digit_value(c: char) -> int {
    c as int - 48
}

/// Reads the digits of `ds` from left to right into a value in `[lo, hi]`
/// (subtracting them when `neg`), failing at the first character that is
/// not a digit or that takes the value out of range.
pub open spec fn fold_digits(ds: Seq<char>, neg: bool, lo: int, hi: int) -> Result<
    int,
    IntParseError,
>
    decreases ds.len(),
{
    if ds.len() == 0 {
        Ok(0)
    } else {
        match fold_digits(ds.drop_last(), neg, lo, hi) {
            Err(e) => Err(e),
            Ok(acc) => {
                let c = ds.last();
                if !is_digit(c) {
                    Err(IntParseError::InvalidDigit)
                } else {
                    let v = if neg {
                        acc * 10 - digit_value(c)
                    } else {
                        acc * 10 + digit_value(c)
                    };
                    if v > hi {
                        Err(IntParseError::PosOverflow)
                    } else if v < lo {
                        Err(IntParseError::NegOverflow)
                    } else {
                        Ok(v)
                    }
                }
            },
        }
    }
}

/// How `str::parse` reads an integer in `[lo, hi]`: an optional `+` (or `-`
/// when `lo` is negative) followed by decimal digits only.
pub open spec fn parse_int_spec(s: Seq<char>, lo: int, hi: int) -> Result<int, IntParseError> {
    if s.len() == 0 {
        Err(IntParseError::Empty)
    } else if s.len() == 1 && (s[0] == '+' || s[0] == '-') {
        Err(IntParseError::InvalidDigit)
    } else if s[0] == '+' {
        fold_digits(s.drop_first(), false, lo, hi)
    } else if s[0] == '-' && lo < 0 {
        fold_digits(s.drop_first(), true, lo, hi)
    } else {
        fold_digits(s, false, lo, hi)
    }
}

proof fn lemma_fold_digits_range(ds: Seq<char>, neg: bool, lo: int, hi: int)
    requires
        lo <= 0 <= hi,
    ensures
        fold_digits(ds, neg, lo, hi) matches Ok(v) ==> lo <= v <= hi,
        !neg ==> (fold_digits(ds, neg, lo, hi) matches Ok(v) ==> v >= 0),
        neg ==> (fold_digits(ds, neg, lo, hi) matches Ok(v) ==> v <= 0),
    decreases ds.len(),
{
    if ds.len() > 0 {
        lemma_fold_digits_range(ds.drop_last(), neg, lo, hi);
    }
}

/// Reads the digits of `ds` like `fold_digits`, with `lo`, `hi` in `i64`.
fn fold_digits_exec(ds: &Vec<char>, start: usize, neg: bool, lo: i64, hi: i64) -> (r: Result<
    i64,
    IntParseError,
>)
    requires
        start <= ds.len(),
        lo <= 0 <= hi,
        -0x1_0000_0000_0000 <= lo,
        hi <= 0x1_0000_0000_0000,
    ensures
        match fold_digits(ds@.subrange(start as int, ds.len() as int), neg, lo as int, hi as int) {
            Ok(v) => r == Ok::<i64, IntParseError>(v as i64),
            Err(e) => r == Err::<i64, IntParseError>(e),
        },
{
    let mut acc: i64 = 0;
    let mut i: usize = start;
    while i < ds.len()
        invariant
            start <= i <= ds.len(),
            lo <= 0 <= hi,
            -0x1_0000_0000_0000 <= lo,
            hi <= 0x1_0000_0000_0000,
            fold_digits(ds@.subrange(start as int, i as int), neg, lo as int, hi as int) == Ok::<
                int,
                IntParseError,
            >(acc as int),
            lo <= acc <= hi,
        decreases ds.len() - i,
    {
        let ghost pre = ds@.subrange(start as int, i as int);
        let ghost next = ds@.subrange(start as int, i + 1);
        assert(next.drop_last() =~= pre);
        assert(next.last() == ds@[i as int]);
        let c = ds[i];
        if !('0' <= c && c <= '9') {
            proof {
                lemma_prefix_err_at(ds@, start as int, i as int, neg, lo as int, hi as int);
            }
            return Err(IntParseError::InvalidDigit);
        }
        let d: i64 = (c as u32 - 48) as i64;
        let v: i64 = if neg {
            acc * 10 - d
        } else {
            acc * 10 + d
        };
        if v > hi {
            proof {
                lemma_prefix_err_at(ds@, start as int, i as int, neg, lo as int, hi as int);
            }
            return Err(IntParseError::PosOverflow);
        }
        if v < lo {
            proof {
                lemma_prefix_err_at(ds@, start as int, i as int, neg, lo as int, hi as int);
            }
            return Err(IntParseError::NegOverflow);
        }
        acc = v;
        i = i + 1;
    }
    assert(ds@.subrange(start as int, i as int) =~= ds@.subrange(start as int, ds.len() as int));
    Ok(acc)
}

/// An error on a prefix of the digits is the error of the whole.
proof fn lemma_fold_digits_prefix_err(ds: Seq<char>, k: int, neg: bool, lo: int, hi: int)
    requires
        0 <= k <= ds.len(),
        fold_digits(ds.subrange(0, k), neg, lo, hi) is Err,
    ensures
        fold_digits(ds, neg, lo, hi) == fold_digits(ds.subrange(0, k), neg, lo, hi),
    decreases ds.len() - k,
{
    if k < ds.len() {
        assert(ds.drop_last().subrange(0, k) =~= ds.subrange(0, k));
        lemma_fold_digits_prefix_err(ds.drop_last(), k, neg, lo, hi);
    } else {
        assert(ds.subrange(0, k) =~= ds);
    }
}

proof fn lemma_prefix_err_at(ds: Seq<char>, start: int, i: int, neg: bool, lo: int, hi: int)
    requires
        0 <= start <= i < ds.len(),
        fold_digits(ds.subrange(start, i + 1), neg, lo, hi) is Err,
    ensures
        fold_digits(ds.subrange(start, ds.len() as int), neg, lo, hi) == fold_digits(
            ds.subrange(start, i + 1),
            neg,
            lo,
            hi,
        ),
{
    let whole = ds.subrange(start, ds.len() as int);
    assert(whole.subrange(0, i + 1 - start) =~= ds.subrange(start, i + 1));
    lemma_fold_digits_prefix_err(whole, i + 1 - start, neg, lo, hi);
}

fn parse_in_range(s: &str, lo: i64, hi: i64) -> (r: Result<i64, IntParseError>)
    requires
        lo <= 0 <= hi,
        -0x1_0000_0000_0000 <= lo,
        hi <= 0x1_0000_0000_0000,
    ensures
        match parse_int_spec(s@, lo as int, hi as int) {
            Ok(v) => r == Ok::<i64, IntParseError>(v as i64),
            Err(e) => r == Err::<i64, IntParseError>(e),
        },
{
    let v = chars_of(s);
    if v.len() == 0 {
        return Err(IntParseError::Empty);
    }
    if v.len() == 1 && (v[0] == '+' || v[0] == '-') {
        return Err(IntParseError::InvalidDigit);
    }
    if v[0] == '+' {
        assert(v@.subrange(1, v.len() as int) =~= s@.drop_first());
        fold_digits_exec(&v, 1, false, lo, hi)
    } else if v[0] == '-' && lo < 0 {
        assert(v@.subrange(1, v.len() as int) =~= s@.drop_first());
        fold_digits_exec(&v, 1, true, lo, hi)
    } else {
        assert(v@.subrange(0, v.len() as int) =~= s@);
        fold_digits_exec(&v, 0, false, lo, hi)
    }
}

/// Reads `s` as a `u32` the way `s.parse::<u32>()` does.
pub fn parse_u32(s: &str) -> (r: Result<u32, IntParseError>)
    ensures
        match parse_int_spec(s@, 0, u32::MAX as int) {
            Ok(v) => r == Ok::<u32, IntParseError>(v as u32),
            Err(e) => r == Err::<u32, IntParseError>(e),
        },
{
    proof {
        lemma_parse_range(s@, 0, u32::MAX as int);
    }
    match parse_in_range(s, 0, 0xFFFF_FFFF) {
        Ok(v) => Ok(v as u32),
        Err(e) => Err(e),
    }
}

/// Reads `s` as an `i32` the way `s.parse::<i32>()` does.
pub fn parse_i32(s: &str) -> (r: Result<i32, IntParseError>)
    ensures
        match parse_int_spec(s@, i32::MIN as int, i32::MAX as int) {
            Ok(v) => r == Ok::<i32, IntParseError>(v as i32),
            Err(e) => r == Err::<i32, IntParseError>(e),
        },
{
    proof {
        lemma_parse_range(s@, i32::MIN as int, i32::MAX as int);
    }
    match parse_in_range(s, -0x8000_0000, 0x7FFF_FFFF) {
        Ok(v) => Ok(v as i32),
        Err(e) => Err(e),
    }
}

proof fn lemma_parse_range(s: Seq<char>, lo: int, hi: int)
    requires
        lo <= 0 <= hi,
    ensures
        parse_int_spec(s, lo, hi) matches Ok(v) ==> lo <= v <= hi,
{
    if s.len() > 0 {
        lemma_fold_digits_range(s.drop_first(), false, lo, hi);
        lemma_fold_digits_range(s.drop_first(), true, lo, hi);
        lemma_fold_digits_range(s, false, lo, hi);
    }
}

} // verus!

verus! {

/// `str::parse` reads back the decimal text that `Display` writes: parsing
/// the text of a number in range gives the number.
pub proof fn law_parse_reads_decimal_text(n: nat, hi: int)
    requires
        n <= hi,
    ensures
        parse_int_spec(dec_nat(n), 0, hi) == Ok::<int, IntParseError>(n as int),
        parse_int_spec(dec_nat(n), -hi - 1, hi) == Ok::<int, IntParseError>(n as int),
{
    lemma_fold_dec(n, 0, hi);
    lemma_fold_dec(n, -hi - 1, hi);
    lemma_dec_nat_len(n);
    lemma_dec_first_digit(n);
}

proof fn lemma_fold_dec(n: nat, lo: int, hi: int)
    requires
        n <= hi,
        lo <= 0,
    ensures
        fold_digits(dec_nat(n), false, lo, hi) == Ok::<int, IntParseError>(n as int),
    decreases n,
{
    lemma_digit_char(n % 10);
    if n >= 10 {
        lemma_fold_dec(n / 10, lo, hi);
        let s = dec_nat(n);
        assert(s.drop_last() =~= dec_nat(n / 10));
        assert(s.last() == digit_char(n % 10));
        assert((n / 10) * 10 + n % 10 == n);
    } else {
        let s = dec_nat(n);
        assert(s.drop_last() =~= Seq::<char>::empty());
        assert(fold_digits(s.drop_last(), false, lo, hi) == Ok::<int, IntParseError>(0));
        assert(s.last() == digit_char(n));
    }
}

proof fn lemma_digit_char(d: nat)
    requires
        d < 10,
    ensures
        is_digit(digit_char(d)),
        digit_value(digit_char(d)) == d,
{
    assert(digit_char(d) as int == d + 48);
}

proof fn lemma_dec_first_digit(n: nat)
    ensures
        is_digit(dec_nat(n)[0]),
    decreases n,
{
    lemma_dec_nat_len(n);
    lemma_digit_char(n % 10);
    if n >= 10 {
        lemma_dec_first_digit(n / 10);
        lemma_dec_nat_len(n / 10);
        assert(dec_nat(n)[0] == dec_nat(n / 10)[0]);
    }
}

proof fn lemma_fold_dec_neg(n: nat, lo: int, hi: int)
    requires
        n <= -lo,
        hi >= 0,
    ensures
        fold_digits(dec_nat(n), true, lo, hi) == Ok::<int, IntParseError>(-n),
    decreases n,
{
    lemma_digit_char(n % 10);
    if n >= 10 {
        lemma_fold_dec_neg(n / 10, lo, hi);
        let s = dec_nat(n);
        assert(s.drop_last() =~= dec_nat(n / 10));
        assert(s.last() == digit_char(n % 10));
        assert((n / 10) * 10 + n % 10 == n);
    } else {
        let s = dec_nat(n);
        assert(s.drop_last() =~= Seq::<char>::empty());
        assert(fold_digits(s.drop_last(), true, lo, hi) == Ok::<int, IntParseError>(0));
        assert(s.last() == digit_char(n));
    }
}

/// `str::parse` reads back the decimal text of any integer in range,
/// negative ones included.
pub proof fn law_parse_reads_signed_decimal_text(n: int, lo: int, hi: int)
    requires
        lo < 0 <= hi,
        lo <= n <= hi,
    ensures
        parse_int_spec(dec_int(n), lo, hi) == Ok::<int, IntParseError>(n),
{
    if n >= 0 {
        lemma_fold_dec(n as nat, lo, hi);
        lemma_dec_nat_len(n as nat);
        lemma_dec_first_digit(n as nat);
    } else {
        let m = (-n) as nat;
        lemma_fold_dec_neg(m, lo, hi);
        lemma_dec_nat_len(m);
        let s = dec_int(n);
        assert(s == seq!['-'] + dec_nat(m));
        assert(s.drop_first() =~= dec_nat(m));
        assert(s[0] == '-');
    }
}

/// The decimal text of an integer: an optional `-`, then digits.
pub proof fn lemma_dec_int_chars(n: int)
    ensures
        dec_int(n).len() >= 1,
        is_digit(dec_int(n).last()),
        dec_int(n)[0] == '-' || is_digit(dec_int(n)[0]),
        forall|i: int| 0 <= i < dec_int(n).len() ==> (dec_int(n)[i] == '-' || is_digit(
            #[trigger] dec_int(n)[i],
        )),
{
    let m: nat = if n < 0 {
        (-n) as nat
    } else {
        n as nat
    };
    lemma_dec_nat_len(m);
    lemma_dec_first_digit(m);
    lemma_dec_nat_digits(m);
    if n < 0 {
        let s = dec_int(n);
        assert(s == seq!['-'] + dec_nat(m));
        assert forall|i: int| 0 < i < s.len() implies is_digit(#[trigger] s[i]) by {
            assert(s[i] == dec_nat(m)[i - 1]);
        }
        assert(s.last() == dec_nat(m).last());
    }
}

proof fn lemma_dec_nat_digits(n: nat)
    ensures
        forall|i: int| 0 <= i < dec_nat(n).len() ==> is_digit(#[trigger] dec_nat(n)[i]),
    decreases n,
{
    lemma_digit_char(n % 10);
    if n >= 10 {
        lemma_dec_nat_digits(n / 10);
        assert forall|i: int| 0 <= i < dec_nat(n).len() implies is_digit(
            #[trigger] dec_nat(n)[i],
        ) by {
            if i < dec_nat(n / 10).len() {
                assert(dec_nat(n)[i] == dec_nat(n / 10)[i]);
            }
        }
    }
}

/// The decimal text of an integer has no white space to trim.
pub proof fn lemma_dec_int_trimmed(n: int)
    ensures
        trimmed(dec_int(n)) == dec_int(n),
{
    lemma_dec_int_chars(n);
    let s = dec_int(n);
    assert(!is_white_space(s[0]));
    assert(trim_start(s) == s);
    assert(!is_white_space(s.last()));
}

/// Whether `c` does not occur in `s`.
pub open spec fn lacks(s: Seq<char>, c: char) -> bool {
    forall|i: int| 0 <= i < s.len() ==> s[i] != c
}

/// Text without the separator is a single piece.
pub proof fn lemma_split_whole(t: Seq<char>, sep: char)
    requires
        lacks(t, sep),
    ensures
        split_on(t, sep) == seq![t],
    decreases t.len(),
{
    if t.len() > 0 {
        lemma_split_whole(t.drop_last(), sep);
        assert(t.drop_last().push(t.last()) =~= t);
    } else {
        assert(t =~= Seq::<char>::empty());
    }
}

/// Splitting `p`, a separator and `t` (which lacks the separator) gives the
/// pieces of `p` and then `t`.
pub proof fn lemma_split_append(p: Seq<char>, t: Seq<char>, sep: char)
    requires
        lacks(t, sep),
    ensures
        split_on(p + seq![sep] + t, sep) == split_on(p, sep).push(t),
    decreases t.len(),
{
    let s = p + seq![sep] + t;
    lemma_split_on_nonempty(p, sep);
    if t.len() == 0 {
        assert(s.drop_last() =~= p);
        assert(t =~= Seq::<char>::empty());
    } else {
        lemma_split_append(p, t.drop_last(), sep);
        assert(s.drop_last() =~= p + seq![sep] + t.drop_last());
        assert(s.last() == t.last());
        assert(t.drop_last().push(t.last()) =~= t);
        let rest = split_on(p, sep).push(t.drop_last());
        assert(rest.update(rest.len() - 1, rest.last().push(s.last())) =~= split_on(p, sep).push(t));
    }
}

/// The pieces joined back with the separator between them.
pub open spec fn joined(pieces: Seq<Seq<char>>, sep: char) -> Seq<char>
    decreases pieces.len(),
{
    if pieces.len() <= 1 {
        if pieces.len() == 0 {
            Seq::empty()
        } else {
            pieces[0]
        }
    } else {
        joined(pieces.drop_last(), sep) + seq![sep] + pieces.last()
    }
}

/// Splitting cuts the text at every separator and nowhere else: there is at
/// least one piece, no piece holds the separator, and joining the pieces
/// with the separator gives the text back.
pub proof fn law_split_cuts_at_separators(s: Seq<char>, sep: char)
    ensures
        split_on(s, sep).len() >= 1,
        forall|k: int| 0 <= k < split_on(s, sep).len() ==> lacks(#[trigger] split_on(s, sep)[k], sep),
        joined(split_on(s, sep), sep) == s,
    decreases s.len(),
{
    if s.len() == 0 {
        assert(lacks(Seq::<char>::empty(), sep));
        assert(s =~= Seq::<char>::empty());
    } else {
        let rest = split_on(s.drop_last(), sep);
        law_split_cuts_at_separators(s.drop_last(), sep);
        let c = s.last();
        assert(s.drop_last().push(c) =~= s);
        if c == sep {
            let pieces = rest.push(Seq::<char>::empty());
            assert(pieces.drop_last() =~= rest);
            assert(joined(pieces, sep) =~= s);
            assert forall|k: int| 0 <= k < pieces.len() implies lacks(#[trigger] pieces[k], sep) by {
                if k < rest.len() {
                    assert(pieces[k] == rest[k]);
                }
            }
        } else {
            let n = rest.len() - 1;
            let pieces = rest.update(n, rest.last().push(c));
            assert forall|k: int| 0 <= k < pieces.len() implies lacks(#[trigger] pieces[k], sep) by {
                if k < n {
                    assert(pieces[k] == rest[k]);
                } else {
                    assert(lacks(rest[n], sep));
                    assert forall|i: int| 0 <= i < pieces[k].len() implies pieces[k][i] != sep by {
                        if i < rest[n].len() {
                            assert(pieces[k][i] == rest[n][i]);
                        }
                    }
                }
            }
            if rest.len() == 1 {
                assert(joined(pieces, sep) == pieces[0]);
                assert(joined(rest, sep) == rest[0]);
                assert(pieces[0] =~= s);
            } else {
                assert(pieces.drop_last() =~= rest.drop_last());
                assert(joined(pieces, sep) =~= joined(rest, sep).push(c));
            }
        }
    }
}

proof fn lemma_trim_start_shape(s: Seq<char>) -> (i: int)
    ensures
        0 <= i <= s.len(),
        trim_start(s) == s.subrange(i, s.len() as int),
        forall|j: int| 0 <= j < i ==> is_white_space(#[trigger] s[j]),
        i < s.len() ==> !is_white_space(s[i]),
    decreases s.len(),
{
    if s.len() > 0 && is_white_space(s[0]) {
        let k = lemma_trim_start_shape(s.drop_first());
        assert(s.drop_first().subrange(k, s.drop_first().len() as int) =~= s.subrange(
            k + 1,
            s.len() as int,
        ));
        assert forall|j: int| 0 <= j < k + 1 implies is_white_space(#[trigger] s[j]) by {
            if j > 0 {
                assert(s[j] == s.drop_first()[j - 1]);
            }
        }
        if k < s.drop_first().len() {
            assert(s[k + 1] == s.drop_first()[k]);
        }
        k + 1
    } else {
        assert(s.subrange(0, s.len() as int) =~= s);
        0
    }
}

proof fn lemma_trim_end_shape(s: Seq<char>) -> (j: int)
    ensures
        0 <= j <= s.len(),
        trim_end(s) == s.subrange(0, j),
        forall|k: int| j <= k < s.len() ==> is_white_space(#[trigger] s[k]),
        j > 0 ==> !is_white_space(s[j - 1]),
    decreases s.len(),
{
    if s.len() > 0 && is_white_space(s.last()) {
        let k = lemma_trim_end_shape(s.drop_last());
        assert(s.drop_last().subrange(0, k) =~= s.subrange(0, k));
        assert forall|m: int| k <= m < s.len() implies is_white_space(#[trigger] s[m]) by {
            if m < s.len() - 1 {
                assert(s[m] == s.drop_last()[m]);
            }
        }
        if k > 0 {
            assert(s[k - 1] == s.drop_last()[k - 1]);
        }
        k
    } else {
        assert(s.subrange(0, s.len() as int) =~= s);
        s.len() as int
    }
}

/// Trimming removes the white space at both ends and nothing else: the
/// result is the text between some `i` and `j`, everything before `i` and
/// from `j` on is white space, and a non-empty result neither starts nor
/// ends with white space.
pub proof fn law_trim_removes_outer_white_space(s: Seq<char>)
    ensures
        exists|i: int, j: int|
            #![trigger s.subrange(i, j)]
            0 <= i <= j <= s.len() && trimmed(s) == s.subrange(i, j) && (forall|k: int|
                0 <= k < i ==> is_white_space(#[trigger] s[k])) && (forall|k: int|
                j <= k < s.len() ==> is_white_space(#[trigger] s[k])) && (i < j ==> (
            !is_white_space(s[i]) && !is_white_space(s[j - 1]))),
{
    let i = lemma_trim_start_shape(s);
    let t = s.subrange(i, s.len() as int);
    let jj = lemma_trim_end_shape(t);
    let j = i + jj;
    assert(t.subrange(0, jj) =~= s.subrange(i, j));
    assert forall|k: int| j <= k < s.len() implies is_white_space(#[trigger] s[k]) by {
        assert(s[k] == t[k - i]);
    }
    if i < j {
        assert(s[i] == t[0]);
        assert(s[j - 1] == t[jj - 1]);
        assert(!is_white_space(s[i]));
    }
    assert(0 <= i <= j <= s.len() && trimmed(s) == s.subrange(i, j));
}

} // verus!
