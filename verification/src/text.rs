use vstd::prelude::*;
use vstd::std_specs::iter::IteratorSpec;

verus! {

/// Append one character to a string.
#[verifier::external_body]
pub(crate) fn push_char(s: &mut String, c: char)
    ensures
        final(s)@ == old(s)@.push(c),
{
    s.push(c);
}

/// The characters of `s`, in order.
pub fn chars_of(s: &str) -> (v: Vec<char>)
    ensures
        v@ == s@,
{
    broadcast use vstd::string::axiom_spec_iter;
    let mut v: Vec<char> = Vec::new();
    for c in it: s.chars()
        invariant
            v@ == it.seq().take(it.index() as int),
    {
        v.push(c);
    }
    assert(v@ =~= s@);
    v
}

/// A string holding exactly the characters of `v`.
pub fn string_of(v: &[char]) -> (s: String)
    ensures
        s@ == v@,
{
    let mut s = String::new();
    let mut i: usize = 0;
    while i < v.len()
        invariant
            i <= v.len(),
            s@ == v@.subrange(0, i as int),
        decreases v.len() - i,
    {
        push_char(&mut s, v[i]);
        i += 1;
        assert(s@ =~= v@.subrange(0, i as int));
    }
    assert(v@.subrange(0, i as int) =~= v@);
    s
}

pub open spec fn is_ascii_digit(c: char) -> bool {
    '0' <= c && c <= '9'
}

/// The characters with Unicode's `White_Space` property.
pub open spec fn is_space(c: char) -> bool {
    ('\u{9}' <= c && c <= '\u{d}') || c == ' ' || c == '\u{85}' || c == '\u{a0}' || c == '\u{1680}'
        || ('\u{2000}' <= c && c <= '\u{200a}') || c == '\u{2028}' || c == '\u{2029}' || c
        == '\u{202f}' || c == '\u{205f}' || c == '\u{3000}'
}

/// Whether `c` has the `White_Space` property (see [`is_space`]).
pub(crate) fn is_whitespace(c: char) -> (r: bool)
    ensures
        r == is_space(c),
{
    ('\u{9}' <= c && c <= '\u{d}') || c == ' ' || c == '\u{85}' || c == '\u{a0}' || c == '\u{1680}'
        || ('\u{2000}' <= c && c <= '\u{200a}') || c == '\u{2028}' || c == '\u{2029}' || c == '\u{202f}'
        || c == '\u{205f}' || c == '\u{3000}'
}

/// `s` without leading white space.
pub open spec fn trim_start_ws(s: Seq<char>) -> Seq<char>
    decreases s.len(),
{
    if s.len() > 0 && is_space(s[0]) {
        trim_start_ws(s.drop_first())
    } else {
        s
    }
}

/// `s` without trailing white space.
pub open spec fn trim_end_ws(s: Seq<char>) -> Seq<char>
    decreases s.len(),
{
    if s.len() > 0 && is_space(s.last()) {
        trim_end_ws(s.drop_last())
    } else {
        s
    }
}

/// `s` without white space at either end, as `str::trim` gives it.
pub open spec fn trim_ws(s: Seq<char>) -> Seq<char> {
    trim_end_ws(trim_start_ws(s))
}

/// Where the text of `v` starts once leading white space is skipped.
pub fn trim_start_at(v: &[char]) -> (n: usize)
    ensures
        n <= v@.len(),
        v@.subrange(n as int, v@.len() as int) == trim_start_ws(v@),
{
    let mut n: usize = 0;
    assert(v@.subrange(0, v@.len() as int) =~= v@);
    while n < v.len() && is_whitespace(v[n])
        invariant
            n <= v@.len(),
            trim_start_ws(v@.subrange(n as int, v@.len() as int)) == trim_start_ws(v@),
        decreases v.len() - n,
    {
        assert(v@.subrange(n as int, v@.len() as int).drop_first() =~= v@.subrange(
            n + 1,
            v@.len() as int,
        ));
        n += 1;
    }
    n
}

/// Where the text of `v` ends once trailing white space is dropped.
pub fn trim_end_at(v: &[char]) -> (n: usize)
    ensures
        n <= v@.len(),
        v@.subrange(0, n as int) == trim_end_ws(v@),
{
    let mut n = v.len();
    assert(v@.subrange(0, n as int) =~= v@);
    while n > 0 && is_whitespace(v[n - 1])
        invariant
            n <= v@.len(),
            trim_end_ws(v@.subrange(0, n as int)) == trim_end_ws(v@),
        decreases n,
    {
        assert(v@.subrange(0, n as int).drop_last() =~= v@.subrange(0, n - 1));
        n -= 1;
    }
    n
}

/// `v` without white space at either end.
pub fn trim_chars(v: &[char]) -> (r: Vec<char>)
    ensures
        r@ == trim_ws(v@),
{
    let a = trim_start_at(v);
    let rest = slice_vec(v, a, v.len());
    let b = trim_end_at(&rest);
    prefix(&rest, b)
}

/// `std::str::from_utf8`: the text `bytes` encode, when they are UTF-8.
#[verifier::external_body]
pub(crate) fn utf8_text(bytes: &[u8]) -> (r: Option<String>)
    ensures
        r is Some <==> vstd::utf8::valid_utf8(bytes@),
        r matches Some(s) ==> vstd::utf8::encode_utf8(s@) == bytes@,
{
    match std::str::from_utf8(bytes) {
        Ok(s) => Some(s.to_string()),
        Err(_) => None,
    }
}

/// The bytes of `data` from `lo` up to `hi`, as a vector.
pub fn bytes_between(data: &[u8], lo: usize, hi: usize) -> (r: Vec<u8>)
    requires
        lo <= hi <= data@.len(),
    ensures
        r@ == data@.subrange(lo as int, hi as int),
{
    let mut r: Vec<u8> = Vec::new();
    let mut i = lo;
    while i < hi
        invariant
            lo <= i <= hi,
            hi <= data@.len(),
            r@ == data@.subrange(lo as int, i as int),
        decreases hi - i,
    {
        r.push(data[i]);
        i += 1;
        assert(r@ =~= data@.subrange(lo as int, i as int));
    }
    r
}

/// `parts` joined by `sep`.
pub open spec fn join(parts: Seq<Seq<char>>, sep: Seq<char>) -> Seq<char>
    decreases parts.len(),
{
    if parts.len() == 0 {
        seq![]
    } else if parts.len() == 1 {
        parts[0]
    } else {
        join(parts.drop_last(), sep) + sep + parts.last()
    }
}

/// What `{:?}` makes of a string: quoted, with its special characters
/// escaped.
pub uninterp spec fn debug_quoted(s: Seq<char>) -> Seq<char>;

/// `format!("{:?}", s)`.
#[verifier::external_body]
pub(crate) fn quoted(s: &str) -> (r: String)
    ensures
        r@ == debug_quoted(s@),
{
    format!("{:?}", s)
}

/// `find` lands on the first `c`.
pub proof fn lemma_find_is(s: Seq<char>, c: char, p: int, from: int)
    requires
        0 <= from <= p < s.len(),
        s[p] == c,
        forall|k: int| from <= k < p ==> s[k] != c,
    ensures
        find_from(s, c, from) == Some(p),
    decreases p - from,
{
    if from < p {
        lemma_find_is(s, c, p, from + 1);
    }
}

/// `find` finds nothing where there is no `c`.
pub proof fn lemma_find_none(s: Seq<char>, c: char, from: int)
    requires
        0 <= from,
        forall|k: int| from <= k < s.len() ==> s[k] != c,
    ensures
        find_from(s, c, from) is None,
    decreases s.len() - from,
{
    if from < s.len() {
        lemma_find_none(s, c, from + 1);
    }
}

/// `rfind` lands on the last `c`.
pub proof fn lemma_rfind_is(s: Seq<char>, c: char, p: int, end: int)
    requires
        0 <= p < end <= s.len(),
        s[p] == c,
        forall|k: int| p < k < end ==> s[k] != c,
    ensures
        rfind_before(s, c, end) == Some(p),
    decreases end - p,
{
    if p < end - 1 {
        lemma_rfind_is(s, c, p, end - 1);
    }
}

} // verus!

verus! {

/// `c` with an ASCII capital folded to its small letter, as a number.
pub open spec fn fold(c: char) -> int {
    if 'A' <= c && c <= 'Z' {
        c as int + 32
    } else {
        c as int
    }
}

pub fn fold_char(c: char) -> (x: u32)
    ensures
        x == fold(c),
{
    let x = c as u32;
    if 'A' <= c && c <= 'Z' {
        x + 32
    } else {
        x
    }
}

/// Equal but for the case of ASCII letters.
pub open spec fn eq_ignore_ascii_case(a: Seq<char>, b: Seq<char>) -> bool {
    a.len() == b.len() && forall|i: int| 0 <= i < a.len() ==> fold(#[trigger] a[i]) == fold(b[i])
}

pub fn chars_eq_ignore_ascii_case(a: &[char], b: &[char]) -> (r: bool)
    ensures
        r == eq_ignore_ascii_case(a@, b@),
{
    if a.len() != b.len() {
        return false;
    }
    let mut i: usize = 0;
    while i < a.len()
        invariant
            a.len() == b.len(),
            i <= a.len(),
            forall|j: int| 0 <= j < i ==> fold(#[trigger] a@[j]) == fold(b@[j]),
        decreases a.len() - i,
    {
        if fold_char(a[i]) != fold_char(b[i]) {
            return false;
        }
        i += 1;
    }
    true
}

/// `s` without any trailing `c`.
pub open spec fn trim_end(s: Seq<char>, c: char) -> Seq<char>
    decreases s.len(),
{
    if s.len() > 0 && s.last() == c {
        trim_end(s.drop_last(), c)
    } else {
        s
    }
}

pub proof fn lemma_trim_end_prefix(s: Seq<char>, c: char)
    ensures
        trim_end(s, c).len() <= s.len(),
        trim_end(s, c) =~= s.subrange(0, trim_end(s, c).len() as int),
    decreases s.len(),
{
    if s.len() > 0 && s.last() == c {
        lemma_trim_end_prefix(s.drop_last(), c);
    }
}

/// How long `v` is without its trailing `c`s.
pub fn trim_end_len(v: &[char], c: char) -> (n: usize)
    ensures
        n <= v@.len(),
        v@.subrange(0, n as int) == trim_end(v@, c),
{
    let mut n = v.len();
    assert(v@.subrange(0, n as int) =~= v@);
    while n > 0 && v[n - 1] == c
        invariant
            n <= v@.len(),
            trim_end(v@.subrange(0, n as int), c) == trim_end(v@, c),
        decreases n,
    {
        assert(v@.subrange(0, n as int).drop_last() =~= v@.subrange(0, n - 1));
        n -= 1;
    }
    assert(trim_end(v@.subrange(0, n as int), c) == v@.subrange(0, n as int));
    n
}

/// The first `n` characters of `v`, as a vector.
pub fn prefix(v: &[char], n: usize) -> (r: Vec<char>)
    requires
        n <= v@.len(),
    ensures
        r@ == v@.subrange(0, n as int),
{
    slice_vec(v, 0, n)
}

/// The characters of `v` from `lo` up to `hi`, as a vector.
pub fn slice_vec(v: &[char], lo: usize, hi: usize) -> (r: Vec<char>)
    requires
        lo <= hi <= v@.len(),
    ensures
        r@ == v@.subrange(lo as int, hi as int),
{
    let mut r: Vec<char> = Vec::new();
    let mut i = lo;
    while i < hi
        invariant
            lo <= i <= hi <= v@.len(),
            r@ == v@.subrange(lo as int, i as int),
        decreases hi - i,
    {
        r.push(v[i]);
        i += 1;
        assert(r@ =~= v@.subrange(lo as int, i as int));
    }
    r
}

/// Whether `v` and `w` hold the same characters.
pub fn chars_eq(v: &[char], w: &[char]) -> (r: bool)
    ensures
        r == (v@ == w@),
{
    if v.len() != w.len() {
        return false;
    }
    let mut i: usize = 0;
    while i < v.len()
        invariant
            v.len() == w.len(),
            i <= v.len(),
            forall|j: int| 0 <= j < i ==> v@[j] == w@[j],
        decreases v.len() - i,
    {
        if v[i] != w[i] {
            return false;
        }
        i += 1;
    }
    assert(v@ =~= w@);
    true
}

/// A character takes at most four bytes of UTF-8.
pub proof fn lemma_utf8_len_bound(chars: Seq<char>)
    ensures
        vstd::utf8::encode_utf8(chars).len() <= 4 * chars.len(),
    decreases chars.len(),
{
    if chars.len() > 0 {
        lemma_utf8_len_bound(chars.drop_first());
    }
}

/// Whether two strings hold the same characters.
pub fn same_text(a: &str, b: &str) -> (r: bool)
    ensures
        r == (a@ == b@),
{
    let x = chars_of(a);
    let y = chars_of(b);
    chars_eq(&x, &y)
}

/// Whether `v` starts with `p`.
pub fn starts_with(v: &[char], p: &[char]) -> (r: bool)
    ensures
        r == (p@.len() <= v@.len() && v@.subrange(0, p@.len() as int) == p@),
{
    if p.len() > v.len() {
        return false;
    }
    let mut i: usize = 0;
    while i < p.len()
        invariant
            p.len() <= v.len(),
            i <= p.len(),
            forall|j: int| 0 <= j < i ==> v@[j] == p@[j],
        decreases p.len() - i,
    {
        if v[i] != p[i] {
            assert(v@.subrange(0, p@.len() as int)[i as int] != p@[i as int]);
            return false;
        }
        i += 1;
    }
    assert(v@.subrange(0, p@.len() as int) =~= p@);
    true
}

/// Whether `v` ends with `p`.
pub fn ends_with(v: &[char], p: &[char]) -> (r: bool)
    ensures
        r == (p@.len() <= v@.len() && v@.subrange(v@.len() - p@.len(), v@.len() as int) == p@),
{
    if p.len() > v.len() {
        return false;
    }
    let off = v.len() - p.len();
    let mut i: usize = 0;
    while i < p.len()
        invariant
            p.len() <= v.len(),
            off == v.len() - p.len(),
            i <= p.len(),
            forall|j: int| 0 <= j < i ==> v@[off + j] == p@[j],
        decreases p.len() - i,
    {
        if v[off + i] != p[i] {
            assert(v@.subrange(off as int, v@.len() as int)[i as int] != p@[i as int]);
            return false;
        }
        i += 1;
    }
    assert(v@.subrange(off as int, v@.len() as int) =~= p@);
    true
}

/// The first index of `c` in `s` at or after `from`, if any.
pub open spec fn find_from(s: Seq<char>, c: char, from: int) -> Option<int>
    decreases s.len() - from,
{
    if from < 0 || from >= s.len() {
        None
    } else if s[from] == c {
        Some(from)
    } else {
        find_from(s, c, from + 1)
    }
}

pub open spec fn find(s: Seq<char>, c: char) -> Option<int> {
    find_from(s, c, 0)
}

pub proof fn lemma_find_from(s: Seq<char>, c: char, from: int)
    requires
        0 <= from,
    ensures
        match find_from(s, c, from) {
            Some(i) => from <= i < s.len() && s[i] == c && forall|j: int|
                from <= j < i ==> s[j] != c,
            None => forall|j: int| from <= j < s.len() ==> s[j] != c,
        },
    decreases s.len() - from,
{
    if from < s.len() && s[from] != c {
        lemma_find_from(s, c, from + 1);
    }
}

/// The index of the first `c` in `v` at or after `from`.
pub fn find_char_from(v: &[char], c: char, from: usize) -> (r: Option<usize>)
    ensures
        r matches Some(i) ==> find_from(v@, c, from as int) == Some(i as int),
        r is None ==> find_from(v@, c, from as int) is None,
{
    let mut i = from;
    proof {
        lemma_find_from(v@, c, from as int);
    }
    while i < v.len()
        invariant
            from <= i,
            find_from(v@, c, from as int) == find_from(v@, c, i as int),
        decreases v.len() - i,
    {
        if v[i] == c {
            return Some(i);
        }
        i += 1;
    }
    None
}

/// The index of the first `c` in `v`.
pub fn find_char(v: &[char], c: char) -> (r: Option<usize>)
    ensures
        r matches Some(i) ==> find(v@, c) == Some(i as int),
        r is None ==> find(v@, c) is None,
{
    find_char_from(v, c, 0)
}

/// The last index of `c` in `s` before `end`, if any.
pub open spec fn rfind_before(s: Seq<char>, c: char, end: int) -> Option<int>
    decreases end,
{
    if end <= 0 || end > s.len() {
        None
    } else if s[end - 1] == c {
        Some(end - 1)
    } else {
        rfind_before(s, c, end - 1)
    }
}

pub open spec fn rfind(s: Seq<char>, c: char) -> Option<int> {
    rfind_before(s, c, s.len() as int)
}

pub proof fn lemma_rfind_before(s: Seq<char>, c: char, end: int)
    requires
        end <= s.len(),
    ensures
        match rfind_before(s, c, end) {
            Some(i) => 0 <= i < end && s[i] == c && forall|j: int| i < j < end ==> s[j] != c,
            None => forall|j: int| 0 <= j < end ==> s[j] != c,
        },
    decreases end,
{
    if end > 0 && s[end - 1] != c {
        lemma_rfind_before(s, c, end - 1);
    }
}

/// The index of the last `c` in `v`.
pub fn rfind_char(v: &[char], c: char) -> (r: Option<usize>)
    ensures
        r matches Some(i) ==> rfind(v@, c) == Some(i as int),
        r is None ==> rfind(v@, c) is None,
{
    let mut n = v.len();
    while n > 0
        invariant
            n <= v@.len(),
            rfind(v@, c) == rfind_before(v@, c, n as int),
        decreases n,
    {
        if v[n - 1] == c {
            return Some(n - 1);
        }
        n -= 1;
    }
    None
}

/// Whether `s` holds `c`.
pub fn contains_char(v: &[char], c: char) -> (r: bool)
    ensures
        r == v@.contains(c),
{
    let mut i: usize = 0;
    while i < v.len()
        invariant
            i <= v.len(),
            forall|j: int| 0 <= j < i ==> v@[j] != c,
        decreases v.len() - i,
    {
        if v[i] == c {
            assert(v@[i as int] == c);
            return true;
        }
        i += 1;
    }
    false
}

} // verus!

verus! {

/// The upper-case hexadecimal digit of `d`, as an ASCII byte.
pub open spec fn hex_digit(d: nat) -> u8 {
    if d < 10 {
        (48 + d) as u8
    } else {
        (55 + d) as u8
    }
}

/// `x` as exactly `n` upper-case hexadecimal digits, as ASCII bytes.
pub open spec fn hex_bytes(x: nat, n: nat) -> Seq<u8>
    decreases n,
{
    if n == 0 {
        seq![]
    } else {
        hex_bytes(x / 16, (n - 1) as nat).push(hex_digit(x % 16))
    }
}

/// `x` as eight upper-case hexadecimal digits: `format!("{x:08X}")`.
pub fn hex8(x: u32) -> (v: Vec<u8>)
    ensures
        v@ == hex_bytes(x as nat, 8),
{
    hex_n(x as u64, 8)
}

pub fn hex_n(x: u64, n: usize) -> (v: Vec<u8>)
    requires
        n <= 16,
    ensures
        v@ == hex_bytes(x as nat, n as nat),
    decreases n,
{
    if n == 0 {
        return Vec::new();
    }
    let mut v = hex_n(x / 16, n - 1);
    let d = x % 16;
    let c: u8 = if d < 10 {
        48 + d as u8
    } else {
        55 + d as u8
    };
    v.push(c);
    v
}

/// The decimal digits of `x`.
pub open spec fn decimal(x: nat) -> Seq<char>
    decreases x,
{
    if x < 10 {
        seq![digit_char(x)]
    } else {
        decimal(x / 10).push(digit_char(x % 10))
    }
}

pub open spec fn digit_char(d: nat) -> char {
    if d == 0 { '0' }
    else if d == 1 { '1' }
    else if d == 2 { '2' }
    else if d == 3 { '3' }
    else if d == 4 { '4' }
    else if d == 5 { '5' }
    else if d == 6 { '6' }
    else if d == 7 { '7' }
    else if d == 8 { '8' }
    else { '9' }
}

/// Decimal text is digits, at least one.
pub proof fn lemma_decimal_digits(x: nat)
    ensures
        decimal(x).len() >= 1,
        x >= 10 ==> decimal(x).len() >= 2,
        forall|i: int| 0 <= i < decimal(x).len() ==> '0' <= #[trigger] decimal(x)[i] <= '9',
    decreases x,
{
    if x >= 10 {
        lemma_decimal_digits(x / 10);
        assert forall|i: int| 0 <= i < decimal(x).len() implies '0' <= #[trigger] decimal(x)[i] <= '9' by {
            if i < decimal(x / 10).len() {
                assert(decimal(x)[i] == decimal(x / 10)[i]);
            }
        }
    }
}

proof fn lemma_digit_char_injective(a: nat, b: nat)
    requires
        a < 10,
        b < 10,
        digit_char(a) == digit_char(b),
    ensures
        a == b,
{
}

/// Different numbers are written differently.
pub proof fn lemma_decimal_injective(x: nat, y: nat)
    requires
        decimal(x) == decimal(y),
    ensures
        x == y,
    decreases x,
{
    lemma_decimal_digits(x);
    lemma_decimal_digits(y);
    if x >= 10 && y >= 10 {
        assert(decimal(x) == decimal(x / 10).push(digit_char(x % 10)));
        assert(decimal(y) == decimal(y / 10).push(digit_char(y % 10)));
        assert(decimal(x).last() == digit_char(x % 10));
        assert(decimal(y).last() == digit_char(y % 10));
        assert(decimal(x).drop_last() =~= decimal(x / 10));
        assert(decimal(y).drop_last() =~= decimal(y / 10));
        lemma_decimal_injective(x / 10, y / 10);
        lemma_digit_char_injective(x % 10, y % 10);
        assert(x == 10 * (x / 10) + x % 10) by (nonlinear_arith);
        assert(y == 10 * (y / 10) + y % 10) by (nonlinear_arith);
    } else if x < 10 && y < 10 {
        assert(decimal(x) == seq![digit_char(x)]);
        assert(decimal(y) == seq![digit_char(y)]);
        assert(decimal(x)[0] == decimal(y)[0]);
        assert(seq![digit_char(x)][0] == digit_char(x));
        assert(seq![digit_char(y)][0] == digit_char(y));
        lemma_digit_char_injective(x, y);
    }
}

fn digit(d: u64) -> (c: char)
    requires
        d < 10,
    ensures
        c == digit_char(d as nat),
{
    if d == 0 { '0' }
    else if d == 1 { '1' }
    else if d == 2 { '2' }
    else if d == 3 { '3' }
    else if d == 4 { '4' }
    else if d == 5 { '5' }
    else if d == 6 { '6' }
    else if d == 7 { '7' }
    else if d == 8 { '8' }
    else { '9' }
}

/// `x` in decimal: `x.to_string()`.
pub fn decimal_chars(x: u64) -> (v: Vec<char>)
    ensures
        v@ == decimal(x as nat),
    decreases x,
{
    if x < 10 {
        let mut v = Vec::new();
        v.push(digit(x));
        v
    } else {
        let mut v = decimal_chars(x / 10);
        v.push(digit(x % 10));
        v
    }
}

/// `x` in decimal, for the wide integers a clock gives.
pub fn decimal_wide(x: u128) -> (v: Vec<char>)
    ensures
        v@ == decimal(x as nat),
    decreases x,
{
    let mut v = if x < 10 {
        Vec::new()
    } else {
        decimal_wide(x / 10)
    };
    let d = (x % 10) as u64;
    v.push(digit(d));
    v
}

/// `x` in decimal, as a string.
pub fn decimal_string(x: u64) -> (s: String)
    ensures
        s@ == decimal(x as nat),
{
    let v = decimal_chars(x);
    string_of(&v)
}

/// Append the characters of `v` to `s`.
pub fn push_chars(s: &mut String, v: &[char])
    ensures
        final(s)@ == old(s)@ + v@,
{
    let mut i: usize = 0;
    let ghost start = s@;
    while i < v.len()
        invariant
            i <= v.len(),
            s@ == start + v@.subrange(0, i as int),
        decreases v.len() - i,
    {
        push_char(s, v[i]);
        i += 1;
        assert(s@ =~= start + v@.subrange(0, i as int));
    }
    assert(v@.subrange(0, i as int) =~= v@);
}

/// Append `t` to `s`.
pub fn push_str(s: &mut String, t: &str)
    ensures
        final(s)@ == old(s)@ + t@,
{
    s.append(t);
}

} // verus!

verus! {

/// The UTF-8 bytes of a string.
pub fn bytes_of(s: &String) -> (b: Vec<u8>)
    ensures
        b@ == vstd::utf8::encode_utf8(s@),
{
    let t = s.as_str().as_bytes();
    let mut v: Vec<u8> = Vec::new();
    let mut i: usize = 0;
    while i < t.len()
        invariant
            i <= t.len(),
            v@ == t@.subrange(0, i as int),
        decreases t.len() - i,
    {
        v.push(t[i]);
        i += 1;
        assert(v@ =~= t@.subrange(0, i as int));
    }
    assert(t@.subrange(0, i as int) =~= t@);
    v
}

} // verus!
