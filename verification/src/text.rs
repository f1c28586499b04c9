//! Character and byte helpers shared by the rest of the library.
use vstd::prelude::*;
use vstd::string::StringExecFns;
use vstd::string::StringSliceAdditionalSpecFns;
use vstd::utf8::*;

verus! {

/// Appends one character to a string (`String::push`).
#[verifier::external_body]
pub(crate) fn push_char(s: &mut String, c: char)
    ensures
        final(s)@ == old(s)@.push(c),
{
    s.push(c);
}

/// The character of a decimal digit.
pub open spec fn digit_char(d: nat) -> char {
    if d == 0 { '0' } else if d == 1 { '1' } else if d == 2 { '2' } else if d == 3 { '3' }
    else if d == 4 { '4' } else if d == 5 { '5' } else if d == 6 { '6' } else if d == 7 { '7' }
    else if d == 8 { '8' } else { '9' }
}

/// The decimal rendering of a natural number, most significant digit first.
pub open spec fn decimal(n: nat) -> Seq<char>
    decreases n,
{
    if n < 10 {
        seq![digit_char(n)]
    } else {
        decimal(n / 10).push(digit_char(n % 10))
    }
}

fn digit(d: usize) -> (c: char)
    requires
        d < 10,
    ensures
        c == digit_char(d as nat),
{
    if d == 0 { '0' } else if d == 1 { '1' } else if d == 2 { '2' } else if d == 3 { '3' }
    else if d == 4 { '4' } else if d == 5 { '5' } else if d == 6 { '6' } else if d == 7 { '7' }
    else if d == 8 { '8' } else { '9' }
}

/// Appends the decimal rendering of `n` to `s`.
pub fn push_decimal(s: &mut String, n: usize)
    ensures
        final(s)@ == old(s)@ + decimal(n as nat),
    decreases n,
{
    if n < 10 {
        push_char(s, digit(n));
    } else {
        push_decimal(s, n / 10);
        push_char(s, digit(n % 10));
    }
}

/// The decimal rendering of `n` as a string.
pub fn decimal_string(n: usize) -> (s: String)
    ensures
        s@ == decimal(n as nat),
{
    let mut s = String::new();
    push_decimal(&mut s, n);
    s
}


/// Whether `c` is an ASCII decimal digit.
pub open spec fn is_digit(c: char) -> bool {
    '0' <= c && c <= '9'
}

/// The value of an ASCII decimal digit.
pub open spec fn digit_value(c: char) -> nat {
    (c as nat - '0' as nat) as nat
}

/// Whether every character of `s` is an ASCII decimal digit.
pub open spec fn all_digits(s: Seq<char>) -> bool {
    forall|i: int| 0 <= i < s.len() ==> is_digit(#[trigger] s[i])
}

/// The number that a string of decimal digits denotes.
pub open spec fn digits_value(s: Seq<char>) -> nat
    decreases s.len(),
{
    if s.len() == 0 {
        0
    } else {
        digits_value(s.drop_last()) * 10 + digit_value(s.last())
    }
}

/// What parsing `s` as an unsigned number no greater than `max` gives: an
/// optional `+` sign followed by at least one ASCII digit, with a value that
/// fits.
pub open spec fn parse_unsigned(s: Seq<char>, max: nat) -> Option<nat> {
    let d = if s.len() > 1 && s[0] == '+' { s.drop_first() } else { s };
    if d.len() > 0 && all_digits(d) && digits_value(d) <= max {
        Some(digits_value(d))
    } else {
        None
    }
}

proof fn lemma_digits_value_prefix(s: Seq<char>, i: int)
    requires
        all_digits(s),
        0 <= i <= s.len(),
    ensures
        digits_value(s.take(i)) <= digits_value(s),
    decreases s.len(),
{
    if i < s.len() {
        assert(s.drop_last().take(i) == s.take(i));
        assert(all_digits(s.drop_last()));
        lemma_digits_value_prefix(s.drop_last(), i);
    } else {
        assert(s.take(i) == s);
    }
}

proof fn lemma_digit_char(d: nat)
    requires
        d < 10,
    ensures
        is_digit(digit_char(d)),
        digit_value(digit_char(d)) == d,
{
}

/// The decimal rendering of a number is a non-empty string of digits
/// whose value is the number.
pub proof fn lemma_decimal_digits(n: nat)
    ensures
        decimal(n).len() > 0,
        all_digits(decimal(n)),
        digits_value(decimal(n)) == n,
    decreases n,
{
    if n < 10 {
        lemma_digit_char(n);
        let s = decimal(n);
        assert(s.drop_last() =~= Seq::<char>::empty());
        assert(s.last() == digit_char(n));
        assert(digits_value(s.drop_last()) == 0);
        assert(digits_value(s) == digit_value(digit_char(n)));
    } else {
        lemma_decimal_digits(n / 10);
        lemma_digit_char(n % 10);
        let s = decimal(n);
        assert(s.drop_last() =~= decimal(n / 10));
        assert(s.last() == digit_char(n % 10));
        assert(digits_value(s) == digits_value(decimal(n / 10)) * 10 + digit_value(digit_char(n % 10)));
        assert((n / 10) * 10 + n % 10 == n);
        assert forall|i: int| 0 <= i < s.len() implies is_digit(#[trigger] s[i]) by {
            if i < s.len() - 1 {
                assert(s[i] == decimal(n / 10)[i]);
            }
        }
    }
}

/// Reading back the decimal rendering of a number gives the number: parsing
/// `decimal(n)` with any bound at least `n` yields `n`.
pub proof fn lemma_parse_decimal(n: nat, max: nat)
    requires
        n <= max,
    ensures
        parse_unsigned(decimal(n), max) == Some(n),
{
    lemma_decimal_digits(n);
    assert(is_digit(decimal(n)[0]));
}

/// Parses `s` as a `usize` the way `str::parse::<usize>` does, bounded by `max`.
pub fn parse_bounded(s: &str, max: usize) -> (res: Option<usize>)
    ensures
        res matches Some(v) ==> parse_unsigned(s@, max as nat) == Some(v as nat),
        res is None ==> parse_unsigned(s@, max as nat) is None,
{
    let n: usize = s.unicode_len();
    let start: usize = if n > 1 && s.get_char(0) == '+' { 1 } else { 0 };
    let ghost d = if s@.len() > 1 && s@[0] == '+' { s@.drop_first() } else { s@ };
    assert(d == s@.subrange(start as int, n as int));
    if start >= n {
        return None;
    }
    let mut value: usize = 0;
    let mut i: usize = start;
    while i < n
        invariant
            start <= i <= n,
            n == s@.len(),
            d == s@.subrange(start as int, n as int),
            d == (if s@.len() > 1 && s@[0] == '+' { s@.drop_first() } else { s@ }),
            all_digits(d.take(i - start)),
            value as nat == digits_value(d.take(i - start)),
            value <= max,
        decreases n - i,
    {
        let c = s.get_char(i);
        if !('0' <= c && c <= '9') {
            assert(d[i - start] == c);
            assert(!is_digit(d[i - start]));
            return None;
        }
        let dv: usize = if c == '0' { 0 } else if c == '1' { 1 } else if c == '2' { 2 }
            else if c == '3' { 3 } else if c == '4' { 4 } else if c == '5' { 5 }
            else if c == '6' { 6 } else if c == '7' { 7 } else if c == '8' { 8 } else { 9 };
        assert(dv as nat == digit_value(c));
        let ghost pre = d.take(i - start);
        let ghost next = d.take(i + 1 - start);
        assert(next.drop_last() == pre);
        assert(all_digits(next));
        if dv > max || value > (max - dv) / 10 {
            assert(value * 10 + dv > max) by (nonlinear_arith)
                requires dv > max || value > (max - dv) / 10, value >= 0;
            proof {
                if all_digits(d) {
                    assert(d.take(i + 1 - start) == next);
                    lemma_digits_value_prefix(d, i + 1 - start);
                }
            }
            return None;
        }
        assert(value * 10 + dv <= max) by (nonlinear_arith)
            requires value <= (max - dv) / 10, dv <= max;
        value = value * 10 + dv;
        i = i + 1;
    }
    assert(d.take(n - start) == d);
    Some(value)
}

/// Parses `s` as a `usize` the way `str::parse::<usize>` does.
pub fn parse_usize(s: &str) -> (res: Option<usize>)
    ensures
        res matches Some(v) ==> parse_unsigned(s@, usize::MAX as nat) == Some(v as nat),
        res is None ==> parse_unsigned(s@, usize::MAX as nat) is None,
{
    parse_bounded(s, usize::MAX)
}


/// Lexicographic comparison of two texts by code point: -1, 0 or 1.
pub open spec fn text_order(a: Seq<char>, b: Seq<char>) -> int
    decreases a.len(),
{
    if a.len() == 0 {
        if b.len() == 0 { 0 } else { -1 }
    } else if b.len() == 0 {
        1
    } else if a[0] < b[0] {
        -1
    } else if a[0] > b[0] {
        1
    } else {
        text_order(a.drop_first(), b.drop_first())
    }
}

/// Swapping the arguments of `text_order` negates it, and only equal texts
/// Text order is the dictionary order of code points: where two texts
/// first differ, the smaller character comes first, and a text comes after
/// each of its proper prefixes.
pub proof fn lemma_text_order_first_difference(a: Seq<char>, b: Seq<char>, k: int)
    requires
        0 <= k <= a.len(),
        k <= b.len(),
        a.subrange(0, k) == b.subrange(0, k),
    ensures
        k < a.len() && k < b.len() && a[k] < b[k] ==> text_order(a, b) == -1,
        k < a.len() && k < b.len() && a[k] > b[k] ==> text_order(a, b) == 1,
        k == a.len() && k < b.len() ==> text_order(a, b) == -1,
        k < a.len() && k == b.len() ==> text_order(a, b) == 1,
    decreases k,
{
    if k > 0 {
        assert(a[0] == a.subrange(0, k)[0]);
        assert(b[0] == b.subrange(0, k)[0]);
        assert(a.drop_first().subrange(0, k - 1) =~= a.subrange(0, k).drop_first());
        assert(b.drop_first().subrange(0, k - 1) =~= b.subrange(0, k).drop_first());
        lemma_text_order_first_difference(a.drop_first(), b.drop_first(), k - 1);
    }
}

/// compare equal.
pub proof fn lemma_text_order_antisymmetric(a: Seq<char>, b: Seq<char>)
    ensures
        text_order(a, b) == -text_order(b, a),
        -1 <= text_order(a, b) <= 1,
        text_order(a, b) == 0 <==> a == b,
    decreases a.len(),
{
    if a.len() > 0 && b.len() > 0 && a[0] == b[0] {
        lemma_text_order_antisymmetric(a.drop_first(), b.drop_first());
        if a.drop_first() == b.drop_first() {
            assert(a =~= seq![a[0]] + a.drop_first());
            assert(b =~= seq![b[0]] + b.drop_first());
        }
    } else if a.len() == 0 && b.len() == 0 {
        assert(a =~= b);
    }
}

/// `text_order` is transitive.
pub proof fn lemma_text_order_transitive(a: Seq<char>, b: Seq<char>, c: Seq<char>)
    requires
        text_order(a, b) <= 0,
        text_order(b, c) <= 0,
    ensures
        text_order(a, c) <= 0,
        text_order(a, b) < 0 || text_order(b, c) < 0 ==> text_order(a, c) < 0,
    decreases a.len(),
{
    if a.len() > 0 && b.len() > 0 && c.len() > 0 && a[0] == b[0] && b[0] == c[0] {
        lemma_text_order_transitive(a.drop_first(), b.drop_first(), c.drop_first());
    }
}

/// The characters of `s`.
pub fn chars_of(s: &str) -> (v: Vec<char>)
    ensures
        v@ == s@,
{
    let n: usize = s.unicode_len();
    let mut v: Vec<char> = Vec::new();
    let mut i: usize = 0;
    while i < n
        invariant
            i <= n,
            n == s@.len(),
            v@ == s@.take(i as int),
        decreases n - i,
    {
        v.push(s.get_char(i));
        assert(s@.take(i + 1) == s@.take(i as int).push(s@[i as int]));
        i = i + 1;
    }
    assert(s@.take(n as int) == s@);
    v
}

/// Compares two character sequences with `text_order`.
pub fn compare_chars(a: &Vec<char>, b: &Vec<char>) -> (r: i8)
    ensures
        r as int == text_order(a@, b@),
{
    let mut i: usize = 0;
    assert(a@.skip(0) == a@);
    assert(b@.skip(0) == b@);
    while i < a.len() && i < b.len()
        invariant
            i <= a@.len(),
            i <= b@.len(),
            text_order(a@, b@) == text_order(a@.skip(i as int), b@.skip(i as int)),
        decreases a@.len() - i,
    {
        if a[i] < b[i] {
            return -1;
        }
        if a[i] > b[i] {
            return 1;
        }
        assert(a@.skip(i as int).drop_first() == a@.skip(i + 1));
        assert(b@.skip(i as int).drop_first() == b@.skip(i + 1));
        i = i + 1;
    }
    if i < a.len() {
        1
    } else if i < b.len() {
        -1
    } else {
        0
    }
}

/// Compares two texts with `text_order`.
pub fn compare_text(a: &str, b: &str) -> (r: i8)
    ensures
        r as int == text_order(a@, b@),
{
    let ca = chars_of(a);
    let cb = chars_of(b);
    compare_chars(&ca, &cb)
}


/// Whether two texts are the same.
pub fn same_text(a: &str, b: &str) -> (r: bool)
    ensures
        r == (a@ == b@),
{
    proof {
        lemma_text_order_antisymmetric(a@, b@);
    }
    compare_text(a, b) == 0
}

/// The views of a sequence of strings.
pub open spec fn texts(v: Seq<String>) -> Seq<Seq<char>> {
    v.map_values(|p: String| p@)
}

/// The pieces of `s` between occurrences of `sep`, as `str::split` gives them
/// (consecutive separators give empty pieces; there is always one piece more
/// than there are separators).
pub open spec fn split_on(s: Seq<char>, sep: char) -> Seq<Seq<char>>
    decreases s.len(),
{
    if s.len() == 0 {
        seq![Seq::empty()]
    } else {
        let rest = split_on(s.drop_last(), sep);
        if s.last() == sep {
            rest.push(Seq::empty())
        } else {
            rest.update(rest.len() - 1, rest.last().push(s.last()))
        }
    }
}

proof fn lemma_split_on_nonempty(s: Seq<char>, sep: char)
    ensures
        split_on(s, sep).len() >= 1,
    decreases s.len(),
{
    if s.len() > 0 {
        lemma_split_on_nonempty(s.drop_last(), sep);
    }
}

/// Splits `s` at every occurrence of `sep` (`str::split` with a `char`).
pub fn split_text(s: &str, sep: char) -> (parts: Vec<String>)
    ensures
        texts(parts@) == split_on(s@, sep),
{
    let chars = chars_of(s);
    let mut parts: Vec<String> = Vec::new();
    let mut cur = String::new();
    let mut i: usize = 0;
    assert(chars@.take(0) =~= Seq::<char>::empty());
    assert(texts(parts@).push(cur@) =~= split_on(chars@.take(0), sep));
    while i < chars.len()
        invariant
            i <= chars@.len(),
            chars@ == s@,
            texts(parts@).push(cur@) == split_on(chars@.take(i as int), sep),
        decreases chars@.len() - i,
    {
        let c = chars[i];
        let ghost pre = chars@.take(i as int);
        assert(chars@.take(i + 1).drop_last() == pre);
        proof { lemma_split_on_nonempty(pre, sep); }
        if c == sep {
            let ghost old_parts = texts(parts@);
            let done = cur;
            parts.push(done);
            cur = String::new();
            assert(texts(parts@) =~= old_parts.push(done@));
            assert(texts(parts@).push(cur@) =~= split_on(chars@.take(i + 1), sep));
        } else {
            let ghost old_cur = cur@;
            push_char(&mut cur, c);
            assert(texts(parts@).push(cur@) =~= split_on(chars@.take(i + 1), sep));
        }
        i = i + 1;
    }
    assert(chars@.take(chars@.len() as int) == chars@);
    let ghost before = texts(parts@);
    parts.push(cur);
    assert(texts(parts@) =~= before.push(cur@));
    parts
}

/// The number of bytes in the UTF-8 encoding of `s`.
pub open spec fn utf8_len(s: Seq<char>) -> nat {
    encode_utf8(s).len()
}

/// The largest character boundary of `bytes` that is at most `top`.
pub open spec fn boundary_at_most(bytes: Seq<u8>, top: int) -> int
    decreases top,
{
    if top <= 0 {
        0
    } else if is_char_boundary(bytes, top) {
        top
    } else {
        boundary_at_most(bytes, top - 1)
    }
}

/// What `restrict` keeps of `s`: the UTF-8 encoding of `s` cut at the last
/// character boundary at or before `max` bytes, decoded.
pub open spec fn restricted(s: Seq<char>, max: nat) -> Seq<char> {
    let bytes = encode_utf8(s);
    let top = if max < bytes.len() { max as int } else { bytes.len() as int };
    decode_utf8(bytes.subrange(0, boundary_at_most(bytes, top)))
}

proof fn lemma_end_is_boundary(bytes: Seq<u8>)
    requires
        valid_utf8(bytes),
    ensures
        is_char_boundary(bytes, bytes.len() as int),
    decreases bytes.len(),
{
    if bytes.len() > 0 {
        let l = length_of_first_scalar(bytes);
        assert(1 <= l <= bytes.len());
        let tail = pop_first_scalar(bytes);
        assert(tail.len() == bytes.len() - l);
        lemma_end_is_boundary(tail);
    }
}

/// A text that fits in `max` bytes is kept whole: truncation only ever
/// removes what does not fit.
pub proof fn lemma_restricted_fitting(s: Seq<char>, max: nat)
    requires
        utf8_len(s) <= max,
    ensures
        restricted(s, max) == s,
{
    let bytes = encode_utf8(s);
    encode_utf8_valid_utf8(s);
    lemma_end_is_boundary(bytes);
    assert(boundary_at_most(bytes, bytes.len() as int) == bytes.len() as int);
    assert(bytes.subrange(0, bytes.len() as int) =~= bytes);
    encode_utf8_decode_utf8(s);
}

/// Keeps the longest prefix of `source` whose UTF-8 encoding fits in `max`
/// bytes, cutting only at character boundaries.
pub fn restrict(source: &str, max: usize) -> (res: String)
    ensures
        res@ == restricted(source@, max as nat),
        res@.is_prefix_of(source@),
        utf8_len(res@) <= max,
{
    broadcast use encode_utf8_valid_utf8, encode_utf8_decode_utf8;

    let ghost bytes = encode_utf8(source@);
    let len: usize = source.as_bytes().len();
    let top: usize = if max < len { max } else { len };
    let mut j: usize = top;
    while j > 0 && !source.is_char_boundary(j)
        invariant
            j <= top,
            top <= bytes.len(),
            bytes == source.spec_bytes(),
            valid_utf8(bytes),
            boundary_at_most(bytes, top as int) == boundary_at_most(bytes, j as int),
        decreases j,
    {
        j = j - 1;
    }
    assert(boundary_at_most(bytes, j as int) == j as int);
    assert(is_char_boundary(bytes, j as int));
    let (part, _rest) = source.split_at(j);
    let res = part.to_owned();
    proof {
        assert(part.spec_bytes() =~= bytes.subrange(0, j as int));
        assert(decode_utf8(part.spec_bytes()) == part@);
        valid_utf8_split(bytes, j as int);
        decode_utf8_split(bytes, j as int);
        decode_utf8_encode_utf8(bytes.subrange(0, j as int));
        assert(source@ == decode_utf8(bytes));
        assert(source@ =~= res@ + decode_utf8(bytes.subrange(j as int, bytes.len() as int)));
        assert(source@.subrange(0, res@.len() as int) =~= res@);
        assert(len as int == bytes.len());
        assert(res@ == decode_utf8(bytes.subrange(0, boundary_at_most(bytes, top as int))));
    }
    res
}


/// Decodes UTF-8 bytes into a string (`String::from_utf8`): `None` when the
/// bytes are not valid UTF-8.
#[verifier::external_body]
pub(crate) fn string_from_utf8(bytes: Vec<u8>) -> (r: Option<String>)
    ensures
        r is Some <==> valid_utf8(bytes@),
        r matches Some(s) ==> s@ == decode_utf8(bytes@),
{
    String::from_utf8(bytes).ok()
}

/// A text without its trailing NUL characters.
pub open spec fn trim_nul(s: Seq<char>) -> Seq<char>
    decreases s.len(),
{
    if s.len() > 0 && s.last() == '\0' {
        trim_nul(s.drop_last())
    } else {
        s
    }
}

/// `s` without its trailing NUL characters (`trim_end_matches('\0')`).
pub fn trim_trailing_nul(s: &str) -> (r: String)
    ensures
        r@ == trim_nul(s@),
{
    let chars = chars_of(s);
    let mut k: usize = chars.len();
    assert(s@.take(k as int) =~= s@);
    while k > 0 && chars[k - 1] == '\0'
        invariant
            k <= chars@.len(),
            chars@ == s@,
            trim_nul(s@) == trim_nul(s@.take(k as int)),
        decreases k,
    {
        assert(s@.take(k as int).drop_last() =~= s@.take(k - 1));
        k = k - 1;
    }
    assert(trim_nul(s@.take(k as int)) == s@.take(k as int));
    s.substring_char(0, k).to_owned()
}

/// `k` NUL characters.
pub open spec fn nuls(k: nat) -> Seq<char> {
    Seq::new(k, |i: int| '\0')
}

/// Encoding a concatenation encodes each part.
pub proof fn lemma_encode_utf8_concat(a: Seq<char>, b: Seq<char>)
    ensures
        encode_utf8(a + b) == encode_utf8(a) + encode_utf8(b),
    decreases a.len(),
{
    if a.len() == 0 {
        assert(a + b =~= b);
        assert(encode_utf8(a) =~= Seq::<u8>::empty());
        assert(encode_utf8(a) + encode_utf8(b) =~= encode_utf8(b));
    } else {
        assert((a + b).drop_first() =~= a.drop_first() + b);
        assert((a + b)[0] == a[0]);
        lemma_encode_utf8_concat(a.drop_first(), b);
        assert(encode_utf8(a + b) =~= encode_scalar(a[0] as u32) + (encode_utf8(a.drop_first())
            + encode_utf8(b)));
    }
}

/// NUL characters encode as zero bytes, one each.
pub proof fn lemma_encode_nuls(k: nat)
    ensures
        encode_utf8(nuls(k)) == Seq::new(k, |i: int| 0u8),
    decreases k,
{
    if k > 0 {
        assert(nuls(k).drop_first() =~= nuls((k - 1) as nat));
        lemma_encode_nuls((k - 1) as nat);
        assert(has_width_1_encoding(0u32));
        assert(leading_byte_width_1(0u32) == 0u8) by (bit_vector);
        assert(('\0' as u32) == 0u32);
        assert(encode_scalar(0u32) =~= seq![0u8]);
        assert(Seq::new(k, |i: int| 0u8) =~= seq![0u8] + Seq::new((k - 1) as nat, |i: int| 0u8));
    } else {
        assert(encode_utf8(nuls(k)) =~= Seq::<u8>::empty());
        assert(Seq::new(k, |i: int| 0u8) =~= Seq::<u8>::empty());
    }
}

/// Trimming trailing NULs from a text followed by NULs gives the text back,
/// when the text does not itself end with a NUL.
pub proof fn lemma_trim_nuls(s: Seq<char>, k: nat)
    requires
        s.len() == 0 || s.last() != '\0',
    ensures
        trim_nul(s + nuls(k)) == s,
    decreases k,
{
    if k > 0 {
        assert((s + nuls(k)).drop_last() =~= s + nuls((k - 1) as nat));
        lemma_trim_nuls(s, (k - 1) as nat);
    } else {
        assert(s + nuls(k) =~= s);
    }
}

/// Whether `c` is white space as `char::is_whitespace` has it: the Unicode
/// `White_Space` set, U+0009 to U+000D, U+0020, U+0085, U+00A0, U+1680,
/// U+2000 to U+200A, U+2028, U+2029, U+202F, U+205F and U+3000.
pub open spec fn white_space(c: char) -> bool {
    ||| '\u{9}' <= c <= '\u{d}'
    ||| c == ' '
    ||| c == '\u{85}'
    ||| c == '\u{a0}'
    ||| c == '\u{1680}'
    ||| '\u{2000}' <= c <= '\u{200a}'
    ||| c == '\u{2028}'
    ||| c == '\u{2029}'
    ||| c == '\u{202f}'
    ||| c == '\u{205f}'
    ||| c == '\u{3000}'
}

/// Whether `c` is white space (see `white_space`).
pub fn is_white_space(c: char) -> (b: bool)
    ensures
        b == white_space(c),
{
    ('\u{9}' <= c && c <= '\u{d}') || c == ' ' || c == '\u{85}' || c == '\u{a0}'
        || c == '\u{1680}' || ('\u{2000}' <= c && c <= '\u{200a}') || c == '\u{2028}'
        || c == '\u{2029}' || c == '\u{202f}' || c == '\u{205f}' || c == '\u{3000}'
}

/// A text without its leading white space, as `str::trim_start` leaves it.
pub open spec fn trimmed_start(s: Seq<char>) -> Seq<char>
    decreases s.len(),
{
    if s.len() > 0 && white_space(s[0]) {
        trimmed_start(s.drop_first())
    } else {
        s
    }
}

/// Removes the leading white space of a text (see `trimmed_start`).
pub fn trim_start_text(s: &str) -> (r: String)
    ensures
        r@ == trimmed_start(s@),
{
    let n: usize = s.unicode_len();
    let mut i: usize = 0;
    assert(s@.subrange(0, n as int) =~= s@);
    while i < n && is_white_space(s.get_char(i))
        invariant
            i <= n,
            n == s@.len(),
            trimmed_start(s@) == trimmed_start(s@.subrange(i as int, n as int)),
        decreases n - i,
    {
        assert(s@.subrange(i as int, n as int).drop_first() =~= s@.subrange(i + 1, n as int));
        i = i + 1;
    }
    assert(trimmed_start(s@.subrange(i as int, n as int)) == s@.subrange(i as int, n as int));
    s.substring_char(i, n).to_owned()
}

} // verus!
