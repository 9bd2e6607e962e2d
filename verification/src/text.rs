//! Character-level text handling shared by every record decoder: the
//! whitespace and digit vocabulary, trimming, integer parsing and
//! formatting, all stated over the `Seq<char>` view of a string.
use vstd::prelude::*;

verus! {

// ---- whitespace ---------------------------------------------------------

/// Unicode `White_Space`, the set `char::is_whitespace` (and so
/// `str::trim`) strips.
pub open spec fn is_ws(c: char) -> bool {
    let u = c as u32;
    ||| 9 <= u <= 13
    ||| u == 32
    ||| u == 0x85
    ||| u == 0xA0
    ||| u == 0x1680
    ||| 0x2000 <= u <= 0x200A
    ||| u == 0x2028
    ||| u == 0x2029
    ||| u == 0x202F
    ||| u == 0x205F
    ||| u == 0x3000
}

pub open spec fn trim_start(s: Seq<char>) -> Seq<char>
    decreases s.len(),
{
    if s.len() > 0 && is_ws(s[0]) {
        trim_start(s.drop_first())
    } else {
        s
    }
}

pub open spec fn trim_end(s: Seq<char>) -> Seq<char>
    decreases s.len(),
{
    if s.len() > 0 && is_ws(s.last()) {
        trim_end(s.drop_last())
    } else {
        s
    }
}

/// What `str::trim` leaves of `s`.
pub open spec fn trim(s: Seq<char>) -> Seq<char> {
    trim_end(trim_start(s))
}

proof fn lemma_trim_start_shape(s: Seq<char>)
    ensures
        trim_start(s).len() == 0 || !is_ws(trim_start(s)[0]),
    decreases s.len(),
{
    if s.len() > 0 && is_ws(s[0]) {
        lemma_trim_start_shape(s.drop_first());
    }
}

proof fn lemma_trim_end_shape(s: Seq<char>)
    ensures
        trim_end(s).len() <= s.len(),
        trim_end(s) =~= s.take(trim_end(s).len() as int),
        trim_end(s).len() == 0 || !is_ws(trim_end(s).last()),
    decreases s.len(),
{
    if s.len() > 0 && is_ws(s.last()) {
        lemma_trim_end_shape(s.drop_last());
        assert(s.drop_last().take(trim_end(s).len() as int) =~= s.take(trim_end(s).len() as int));
    } else {
        assert(s.take(s.len() as int) =~= s);
    }
}

/// Trimming twice is trimming once.
pub proof fn lemma_trim_idempotent(s: Seq<char>)
    ensures
        trim(trim(s)) == trim(s),
{
    let u = trim_start(s);
    let t = trim_end(u);
    lemma_trim_start_shape(s);
    lemma_trim_end_shape(u);
    if t.len() > 0 {
        assert(t[0] == u[0]);
        assert(trim_start(t) == t);
    } else {
        assert(trim_start(t) == t);
    }
    assert(trim_end(t) == t);
}

pub fn is_whitespace(c: char) -> (r: bool)
    ensures
        r == is_ws(c),
{
    let u = c as u32;
    (9 <= u && u <= 13) || u == 32 || u == 0x85 || u == 0xA0 || u == 0x1680 || (0x2000 <= u && u
        <= 0x200A) || u == 0x2028 || u == 0x2029 || u == 0x202F || u == 0x205F || u == 0x3000
}

/// The chars of `s`, in order.
pub fn to_chars(s: &str) -> (v: Vec<char>)
    ensures
        v@ == s@,
{
    let mut v: Vec<char> = Vec::new();
    for c in it: s.chars()
        invariant
            v@ == it.seq().take(it.index() as int),
            it.seq() == s@,
    {
        v.push(c);
    }
    v
}

/// Bounds `(lo, hi)` of the trimmed part of `v[from..to]`.
pub fn trim_bounds(v: &Vec<char>, from: usize, to: usize) -> (r: (usize, usize))
    requires
        from <= to <= v.len(),
    ensures
        from <= r.0 <= r.1 <= to,
        v@.subrange(r.0 as int, r.1 as int) == trim(v@.subrange(from as int, to as int)),
{
    let ghost s = v@.subrange(from as int, to as int);
    let mut lo = from;
    while lo < to && is_whitespace(v[lo])
        invariant
            from <= lo <= to <= v.len(),
            trim_start(s) == trim_start(v@.subrange(lo as int, to as int)),
        decreases to - lo,
    {
        assert(v@.subrange(lo as int, to as int).drop_first() =~= v@.subrange(
            lo + 1,
            to as int,
        ));
        lo = lo + 1;
    }
    let mut hi = to;
    proof {
        assert(trim_start(v@.subrange(lo as int, to as int)) == v@.subrange(lo as int, to as int));
    }
    while hi > lo && is_whitespace(v[hi - 1])
        invariant
            from <= lo <= hi <= to <= v.len(),
            trim(s) == trim_end(v@.subrange(lo as int, hi as int)),
        decreases hi - lo,
    {
        assert(v@.subrange(lo as int, hi as int).drop_last() =~= v@.subrange(
            lo as int,
            hi - 1,
        ));
        hi = hi - 1;
    }
    (lo, hi)
}

/// `str::trim`, as owned chars.
pub fn trimmed_chars(s: &str) -> (r: Vec<char>)
    ensures
        r@ == trim(s@),
{
    let v = to_chars(s);
    let (lo, hi) = trim_bounds(&v, 0, v.len());
    assert(v@.subrange(0, v@.len() as int) =~= v@);
    slice_chars(&v, lo, hi)
}

/// `v[lo..hi]` as a new vector.
pub fn slice_chars(v: &Vec<char>, lo: usize, hi: usize) -> (r: Vec<char>)
    requires
        lo <= hi <= v.len(),
    ensures
        r@ == v@.subrange(lo as int, hi as int),
{
    let mut r: Vec<char> = Vec::new();
    let mut i: usize = lo;
    while i < hi
        invariant
            lo <= i <= hi <= v.len(),
            r@ == v@.subrange(lo as int, i as int),
        decreases hi - i,
    {
        r.push(v[i]);
        i = i + 1;
        assert(r@ =~= v@.subrange(lo as int, i as int));
    }
    r
}

/// Builds a `String` whose chars are exactly `v`.
///
/// Trusted: calls std's `FromIterator<&char> for String`, which appends
/// each char in turn (std documentation of `String: FromIterator`).
#[verifier::external_body]
pub(crate) fn string_from(v: &Vec<char>) -> (s: String)
    ensures
        s@ == v@,
{
    v.iter().collect()
}

/// `lit`'s chars as a vector (for the string constants the decoders
/// compare against and emit).
pub fn lit_chars(lit: &str) -> (v: Vec<char>)
    ensures
        v@ == lit@,
{
    to_chars(lit)
}

/// Whether `v` spells exactly `lit`.
pub fn chars_eq(v: &Vec<char>, lit: &str) -> (r: bool)
    ensures
        r == (v@ == lit@),
{
    let w = to_chars(lit);
    vec_eq(v, &w)
}

/// Whether two strings hold the same text.
pub fn str_eq(a: &str, b: &str) -> (r: bool)
    ensures
        r == (a@ == b@),
{
    let v = to_chars(a);
    let w = to_chars(b);
    vec_eq(&v, &w)
}

pub fn vec_eq(v: &Vec<char>, w: &Vec<char>) -> (r: bool)
    ensures
        r == (v@ == w@),
{
    if v.len() != w.len() {
        return false;
    }
    let mut i: usize = 0;
    while i < v.len()
        invariant
            v.len() == w.len(),
            0 <= i <= v.len(),
            forall|j: int| 0 <= j < i ==> v@[j] == w@[j],
        decreases v.len() - i,
    {
        if v[i] != w[i] {
            return false;
        }
        i = i + 1;
    }
    assert(v@ =~= w@);
    true
}

/// Whether `v` starts with `prefix`.
pub fn starts_with(v: &Vec<char>, prefix: &Vec<char>) -> (r: bool)
    ensures
        r == (prefix@.len() <= v@.len() && v@.subrange(0, prefix@.len() as int) == prefix@),
{
    if prefix.len() > v.len() {
        return false;
    }
    let mut i: usize = 0;
    while i < prefix.len()
        invariant
            prefix.len() <= v.len(),
            0 <= i <= prefix.len(),
            forall|j: int| 0 <= j < i ==> v@[j] == prefix@[j],
        decreases prefix.len() - i,
    {
        if v[i] != prefix[i] {
            assert(v@.subrange(0, prefix@.len() as int)[i as int] != prefix@[i as int]);
            return false;
        }
        i = i + 1;
    }
    assert(v@.subrange(0, prefix@.len() as int) =~= prefix@);
    true
}

pub fn starts_with_lit(v: &Vec<char>, prefix: &str) -> (r: bool)
    ensures
        r == (prefix@.len() <= v@.len() && v@.subrange(0, prefix@.len() as int) == prefix@),
{
    let p = to_chars(prefix);
    starts_with(v, &p)
}

/// `a ++ b`.
pub fn concat(a: &Vec<char>, b: &Vec<char>) -> (r: Vec<char>)
    ensures
        r@ == a@ + b@,
{
    let mut r = a.clone();
    assert(r@ == a@);
    let mut i: usize = 0;
    while i < b.len()
        invariant
            0 <= i <= b.len(),
            r@ == a@ + b@.subrange(0, i as int),
        decreases b.len() - i,
    {
        r.push(b[i]);
        i = i + 1;
        assert(r@ =~= a@ + b@.subrange(0, i as int));
    }
    assert(b@.subrange(0, b@.len() as int) =~= b@);
    r
}

/// Appends `b` to `r`.
pub fn push_all(r: &mut Vec<char>, b: &Vec<char>)
    ensures
        final(r)@ == old(r)@ + b@,
{
    let ghost start = r@;
    let mut i: usize = 0;
    while i < b.len()
        invariant
            0 <= i <= b.len(),
            r@ == start + b@.subrange(0, i as int),
        decreases b.len() - i,
    {
        r.push(b[i]);
        i = i + 1;
        assert(r@ =~= start + b@.subrange(0, i as int));
    }
    assert(b@.subrange(0, b@.len() as int) =~= b@);
}

pub fn push_lit(r: &mut Vec<char>, lit: &str)
    ensures
        final(r)@ == old(r)@ + lit@,
{
    let b = to_chars(lit);
    push_all(r, &b);
}

/// `c` with ASCII `a`..`z` made uppercase.
pub open spec fn ascii_upper(c: char) -> char {
    if 97 <= (c as u32) <= 122 {
        ((c as u32) - 32) as char
    } else {
        c
    }
}

/// `c` lowercased when it is an ASCII capital.
pub open spec fn ascii_lower(c: char) -> char {
    if 'A' <= c <= 'Z' {
        ((c as u32) + 32) as char
    } else {
        c
    }
}

/// Every char of `s` is ASCII.
pub open spec fn is_ascii_text(s: Seq<char>) -> bool {
    forall|i: int| 0 <= i < s.len() ==> (#[trigger] s[i] as u32) < 128
}

/// `s` with ASCII letters uppercased (`str::to_ascii_uppercase`).
pub fn ascii_uppercase(s: &str) -> (r: Vec<char>)
    ensures
        r@ == s@.map_values(|c: char| ascii_upper(c)),
{
    let v = to_chars(s);
    let mut r: Vec<char> = Vec::new();
    let mut i: usize = 0;
    while i < v.len()
        invariant
            0 <= i <= v@.len(),
            v@ == s@,
            r@ == v@.take(i as int).map_values(|c: char| ascii_upper(c)),
        decreases v.len() - i,
    {
        let c = v[i];
        let u = if 97 <= c as u32 && c as u32 <= 122 {
            ((c as u32) - 32) as u8 as char
        } else {
            c
        };
        r.push(u);
        assert(r@ =~= v@.take(i + 1).map_values(|c: char| ascii_upper(c)));
        i = i + 1;
    }
    assert(v@.take(v@.len() as int) =~= v@);
    r
}

/// Uppercase mapping of a string (std `str::to_uppercase`).
pub uninterp spec fn str_uppercase(s: Seq<char>) -> Seq<char>;

/// Trusted: std `str::to_uppercase`. Its result is a function of `s`
/// alone (the Unicode case tables of std); on ASCII text it is
/// `str::to_ascii_uppercase`, `a`..`z` moved to `A`..`Z` and every other
/// ASCII char kept, as std documents for the ASCII range.
#[verifier::external_body]
pub(crate) fn upper_str(s: &str) -> (r: String)
    ensures
        r@ == str_uppercase(s@),
        is_ascii_text(s@) ==> r@ == s@.map_values(|c: char| ascii_upper(c)),
{
    s.to_uppercase()
}

pub open spec fn opt_view(o: Option<String>) -> Option<Seq<char>> {
    match o {
        Some(s) => Some(s@),
        None => None,
    }
}

// ---- digits -------------------------------------------------------------

pub open spec fn is_digit(c: char) -> bool {
    48 <= (c as u32) <= 57
}

pub open spec fn digit_val(c: char) -> nat {
    ((c as u32) - 48) as nat
}

pub open spec fn all_digits(s: Seq<char>) -> bool {
    forall|i: int| 0 <= i < s.len() ==> #[trigger] is_digit(s[i])
}

/// The number a run of decimal digits spells.
pub open spec fn digits_value(s: Seq<char>) -> nat
    decreases s.len(),
{
    if s.len() == 0 {
        0
    } else {
        digits_value(s.drop_last()) * 10 + digit_val(s.last())
    }
}

pub fn is_ascii_digit(c: char) -> (r: bool)
    ensures
        r == is_digit(c),
{
    let u = c as u32;
    48 <= u && u <= 57
}

pub proof fn lemma_digits_value_grows(s: Seq<char>, j: int, k: int)
    requires
        0 <= j <= k <= s.len(),
        all_digits(s),
    ensures
        digits_value(s.subrange(0, j)) <= digits_value(s.subrange(0, k)),
        j < k ==> digits_value(s.subrange(0, j)) * 10 <= digits_value(s.subrange(0, k)),
    decreases k - j,
{
    if j < k {
        lemma_digits_value_grows(s, j, k - 1);
        assert(s.subrange(0, k).drop_last() =~= s.subrange(0, k - 1));
        if j < k - 1 {
            assert(digits_value(s.subrange(0, j)) * 10 <= digits_value(s.subrange(0, k - 1)));
            assert(digits_value(s.subrange(0, j)) * 10 <= digits_value(s.subrange(0, k - 1)) * 10)
                by (nonlinear_arith)
                requires
                    digits_value(s.subrange(0, j)) * 10 <= digits_value(s.subrange(0, k - 1)),
            ;
        }
    }
}

/// Parses `v[start..]` as a run of decimal digits whose value is at
/// most `limit`; `None` for an empty run, any non-digit, or a value
/// above `limit`.
pub fn parse_digit_run(v: &Vec<char>, start: usize, limit: u64) -> (r: Option<u64>)
    requires
        start <= v.len(),
    ensures
        ({
            let b = v@.subrange(start as int, v@.len() as int);
            r == if b.len() > 0 && all_digits(b) && digits_value(b) <= limit {
                Some(digits_value(b) as u64)
            } else {
                None
            }
        }),
{
    let ghost b = v@.subrange(start as int, v@.len() as int);
    if start == v.len() {
        return None;
    }
    let mut acc: u128 = 0;
    let mut i = start;
    while i < v.len()
        invariant
            start <= i <= v.len(),
            b == v@.subrange(start as int, v@.len() as int),
            all_digits(b.subrange(0, i - start)),
            acc == digits_value(b.subrange(0, i - start)),
            acc <= limit,
        decreases v.len() - i,
    {
        let c = v[i];
        if !is_ascii_digit(c) {
            assert(!all_digits(b)) by {
                assert(!is_digit(b[i - start]));
            }
            return None;
        }
        assert(b.subrange(0, i + 1 - start).drop_last() =~= b.subrange(0, i - start));
        assert(all_digits(b.subrange(0, i + 1 - start))) by {
            assert forall|k: int| 0 <= k < i + 1 - start implies #[trigger] is_digit(
                b.subrange(0, i + 1 - start)[k],
            ) by {
                if k < i - start {
                    assert(b.subrange(0, i + 1 - start)[k] == b.subrange(0, i - start)[k]);
                }
            }
        }
        let d = (c as u32 - 48) as u128;
        assert(acc * 10 <= 0xFFFF_FFFF_FFFF_FFFF * 10) by (nonlinear_arith)
            requires
                acc <= 0xFFFF_FFFF_FFFF_FFFF,
        ;
        let next = acc * 10 + d;
        if next > limit as u128 {
            proof {
                // every longer run of digits is at least as large
                if all_digits(b) {
                    lemma_digits_value_grows(b, i + 1 - start, b.len() as int);
                    assert(b.subrange(0, b.len() as int) =~= b);
                }
            }
            return None;
        }
        acc = next;
        i = i + 1;
    }
    assert(b.subrange(0, i - start) =~= b);
    Some(acc as u64)
}

/// The optional `+` sign an unsigned parse accepts, peeled off.
pub open spec fn unsigned_body(s: Seq<char>) -> Seq<char> {
    if s.len() > 0 && s[0] == '+' {
        s.drop_first()
    } else {
        s
    }
}

/// `u32::from_str` (std): an optional `+`, then one or more decimal
/// digits whose value fits in `u32`.
pub open spec fn parse_u32_spec(s: Seq<char>) -> Option<u32> {
    let b = unsigned_body(s);
    if b.len() > 0 && all_digits(b) && digits_value(b) <= u32::MAX {
        Some(digits_value(b) as u32)
    } else {
        None
    }
}

/// `i32::from_str` (std): an optional `+` or `-`, then one or more
/// decimal digits whose signed value fits in `i32`.
pub open spec fn parse_i32_spec(s: Seq<char>) -> Option<i32> {
    if s.len() > 0 && s[0] == '-' {
        let b = s.drop_first();
        if b.len() > 0 && all_digits(b) && digits_value(b) <= 0x8000_0000 {
            Some((0 - digits_value(b)) as i32)
        } else {
            None
        }
    } else {
        let b = unsigned_body(s);
        if b.len() > 0 && all_digits(b) && digits_value(b) <= i32::MAX {
            Some(digits_value(b) as i32)
        } else {
            None
        }
    }
}

pub fn parse_u32(v: &Vec<char>) -> (r: Option<u32>)
    ensures
        r == parse_u32_spec(v@),
{
    let start: usize = if v.len() > 0 && v[0] == '+' {
        1
    } else {
        0
    };
    assert(unsigned_body(v@) =~= v@.subrange(start as int, v@.len() as int));
    match parse_digit_run(v, start, 0xFFFF_FFFF) {
        Some(x) => Some(x as u32),
        None => None,
    }
}

/// `u64::from_str` (std): an optional `+`, then one or more decimal
/// digits whose value fits in `u64`.
pub open spec fn parse_u64_spec(s: Seq<char>) -> Option<u64> {
    let b = unsigned_body(s);
    if b.len() > 0 && all_digits(b) && digits_value(b) <= u64::MAX {
        Some(digits_value(b) as u64)
    } else {
        None
    }
}

pub fn parse_u64(v: &Vec<char>) -> (r: Option<u64>)
    ensures
        r == parse_u64_spec(v@),
{
    let start: usize = if v.len() > 0 && v[0] == '+' {
        1
    } else {
        0
    };
    assert(unsigned_body(v@) =~= v@.subrange(start as int, v@.len() as int));
    parse_digit_run(v, start, 0xFFFF_FFFF_FFFF_FFFF)
}

pub fn parse_i32(v: &Vec<char>) -> (r: Option<i32>)
    ensures
        r == parse_i32_spec(v@),
{
    if v.len() > 0 && v[0] == '-' {
        assert(v@.drop_first() =~= v@.subrange(1, v@.len() as int));
        match parse_digit_run(v, 1, 0x8000_0000) {
            Some(x) => Some((0 - (x as i64)) as i32),
            None => None,
        }
    } else {
        let start: usize = if v.len() > 0 && v[0] == '+' {
            1
        } else {
            0
        };
        assert(unsigned_body(v@) =~= v@.subrange(start as int, v@.len() as int));
        match parse_digit_run(v, start, 0x7FFF_FFFF) {
            Some(x) => Some(x as i32),
            None => None,
        }
    }
}

// ---- formatting ---------------------------------------------------------

pub open spec fn digit_char(d: nat) -> char
    recommends
        d < 10,
{
    (d + 48) as char
}

/// Decimal representation of `n`, no leading zeros (`"0"` for zero), as
/// `format!("{}", n)` writes it.
pub open spec fn decimal(n: nat) -> Seq<char>
    decreases n,
{
    if n < 10 {
        seq![digit_char(n)]
    } else {
        decimal(n / 10).push(digit_char(n % 10))
    }
}

/// `decimal(n)` left-padded with zeros to at least `width` chars, as
/// `format!("{:0width$}", n)` writes it.
pub open spec fn zero_padded(n: nat, width: nat) -> Seq<char> {
    let d = decimal(n);
    if d.len() >= width {
        d
    } else {
        Seq::new((width - d.len()) as nat, |i: int| '0') + d
    }
}

pub fn format_u64(n: u64) -> (r: Vec<char>)
    ensures
        r@ == decimal(n as nat),
    decreases n,
{
    if n < 10 {
        let c = ((n as u32) + 48) as u8 as char;
        let mut r = Vec::new();
        r.push(c);
        assert(r@ =~= seq![digit_char(n as nat)]);
        r
    } else {
        let mut r = format_u64(n / 10);
        let c = (((n % 10) as u32) + 48) as u8 as char;
        r.push(c);
        r
    }
}

pub fn format_padded(n: u64, width: usize) -> (r: Vec<char>)
    ensures
        r@ == zero_padded(n as nat, width as nat),
{
    let d = format_u64(n);
    if d.len() >= width {
        return d;
    }
    let mut r: Vec<char> = Vec::new();
    let pad = width - d.len();
    let mut i: usize = 0;
    while i < pad
        invariant
            0 <= i <= pad,
            r@ == Seq::new(i as nat, |k: int| '0'),
        decreases pad - i,
    {
        r.push('0');
        i = i + 1;
        assert(r@ =~= Seq::new(i as nat, |k: int| '0'));
    }
    push_all(&mut r, &d);
    r
}


// ---- lines --------------------------------------------------------------

/// Index of the first `'\n'` in `s`, or `s.len()` when there is none.
pub open spec fn newline_pos(s: Seq<char>) -> nat
    decreases s.len(),
{
    if s.len() == 0 {
        0
    } else if s[0] == '\n' {
        0
    } else {
        1 + newline_pos(s.drop_first())
    }
}

/// A line with one trailing `'\r'` removed, if it has one.
pub open spec fn strip_cr(l: Seq<char>) -> Seq<char> {
    if l.len() > 0 && l.last() == '\r' {
        l.drop_last()
    } else {
        l
    }
}

pub proof fn lemma_newline_pos_bound(s: Seq<char>)
    ensures
        newline_pos(s) <= s.len(),
        newline_pos(s) < s.len() ==> s[newline_pos(s) as int] == '\n',
        forall|k: int| 0 <= k < newline_pos(s) ==> s[k] != '\n',
    decreases s.len(),
{
    if s.len() > 0 && s[0] != '\n' {
        lemma_newline_pos_bound(s.drop_first());
        assert forall|k: int| 0 <= k < newline_pos(s) implies s[k] != '\n' by {
            if k > 0 {
                assert(s[k] == s.drop_first()[k - 1]);
            }
        }
    }
}

/// The lines `str::lines` yields: split at each `'\n'`, a `'\r'` just
/// before a `'\n'` dropped with it, no final empty line after a
/// trailing `'\n'`.
pub open spec fn lines_spec(s: Seq<char>) -> Seq<Seq<char>>
    decreases s.len(),
{
    if s.len() == 0 {
        seq![]
    } else {
        let p = newline_pos(s);
        if p < s.len() {
            seq![strip_cr(s.take(p as int))] + lines_spec(s.skip(p as int + 1))
        } else {
            seq![s]
        }
    }
}

/// The first newline of `s` is at `m` when `s[..m]` holds none and
/// `s[m]` is one (or `m` is the end).
pub proof fn lemma_newline_pos_at(s: Seq<char>, m: int)
    requires
        0 <= m <= s.len(),
        forall|k: int| 0 <= k < m ==> s[k] != '\n',
        m < s.len() ==> s[m] == '\n',
    ensures
        newline_pos(s) == m,
    decreases m,
{
    if m > 0 {
        lemma_newline_pos_at(s.drop_first(), m - 1);
    }
}

} // verus!
