//! Search results and the file that keeps the last search: a header with a
//! format version and the directory searched, then one fixed-size record per
//! match.
use vstd::prelude::*;
use vstd::string::StrSliceExecFns;
use vstd::string::StringExecFns;
use vstd::string::StringSliceAdditionalSpecFns;
use vstd::utf8::{decode_utf8, encode_utf8, valid_utf8};
use crate::text::{
    chars_of, utf8_len, string_from_utf8, trim_trailing_nul, trim_nul, nuls, lemma_encode_utf8_concat,
    lemma_encode_nuls, lemma_trim_nuls, decimal, push_decimal, same_text, lemma_decimal_digits,
    is_digit,
};

verus! {

/// The name of the file, in the home directory, that keeps the last search.
pub const LAST_PATH: &'static str = ".rgvg_last";

/// The name of the file, in the home directory, that lists the editors.
pub const OPEN_FORMAT_PATH: &'static str = ".rgvg_open_format";

/// The room for a file name (and for the directory in the header), in bytes.
pub const NAME_LEN: usize = 512;

/// The room for a matched line, in bytes.
pub const MATCH_LEN: usize = 512;

/// The size of a line number (and of the version) on disk, in bytes: the
/// width of a `usize`.
pub const LINE_LEN: usize = usize::BITS as usize / 8;

/// The size of one record.
pub const DATA_LEN: usize = NAME_LEN + LINE_LEN + MATCH_LEN;

/// The size of the header: the version, then the directory.
pub const HEADER_LEN: usize = LINE_LEN + NAME_LEN;

/// The format version written in the header.
pub const VERSION: usize = 1;

/// `256` to the power `k`.
pub open spec fn pow256(k: nat) -> nat
    decreases k,
{
    if k == 0 { 1 } else { 256 * pow256((k - 1) as nat) }
}

/// The last `k` bytes of `n` in big-endian order.
pub open spec fn be_bytes(n: nat, k: nat) -> Seq<u8>
    decreases k,
{
    if k == 0 {
        Seq::empty()
    } else {
        be_bytes(n / 256, (k - 1) as nat).push((n % 256) as u8)
    }
}

/// The number that bytes denote in big-endian order.
pub open spec fn be_value(s: Seq<u8>) -> nat
    decreases s.len(),
{
    if s.len() == 0 {
        0
    } else {
        be_value(s.drop_last()) * 256 + s.last() as nat
    }
}

proof fn lemma_be_bytes_len(n: nat, k: nat)
    ensures
        be_bytes(n, k).len() == k,
    decreases k,
{
    if k > 0 {
        lemma_be_bytes_len(n / 256, (k - 1) as nat);
    }
}

/// Reading back big-endian bytes gives the number, when it fits.
pub proof fn lemma_be_roundtrip(n: nat, k: nat)
    requires
        n < pow256(k),
    ensures
        be_value(be_bytes(n, k)) == n,
    decreases k,
{
    if k > 0 {
        let p = pow256((k - 1) as nat);
        assert(n / 256 < p) by (nonlinear_arith)
            requires n < 256 * p, p > 0;
        lemma_be_roundtrip(n / 256, (k - 1) as nat);
        assert(be_bytes(n, k).drop_last() == be_bytes(n / 256, (k - 1) as nat));
        assert((n / 256) * 256 + n % 256 == n) by (nonlinear_arith);
    } else {
        assert(n == 0);
    }
}

proof fn lemma_be_value_bound(s: Seq<u8>)
    ensures
        be_value(s) < pow256(s.len()),
    decreases s.len(),
{
    if s.len() > 0 {
        lemma_be_value_bound(s.drop_last());
        let v = be_value(s.drop_last());
        let p = pow256((s.len() - 1) as nat);
        let b = s.last();
        assert(v * 256 + b < 256 * p) by (nonlinear_arith)
            requires v < p, b < 256;
    }
}

pub(crate) fn push_be(out: &mut Vec<u8>, n: u64, k: usize)
    ensures
        final(out)@ == old(out)@ + be_bytes(n as nat, k as nat),
    decreases k,
{
    if k > 0 {
        push_be(out, n / 256, k - 1);
        out.push((n % 256) as u8);
        assert(be_bytes(n as nat, k as nat) == be_bytes((n / 256) as nat, (k - 1) as nat).push(
            (n % 256) as u8,
        ));
    } else {
        assert(old(out)@ + be_bytes(n as nat, k as nat) =~= old(out)@);
    }
}

fn read_be(s: &[u8], start: usize, k: usize) -> (v: u64)
    requires
        k <= 8,
        start + k <= s@.len(),
    ensures
        v == be_value(s@.subrange(start as int, start + k)),
{
    let mut v: u64 = 0;
    let mut i: usize = 0;
    let n: usize = s.len();
    while i < k
        invariant
            i <= k <= 8,
            n == s@.len(),
            start + k <= s@.len(),
            v == be_value(s@.subrange(start as int, start + i)),
        decreases k - i,
    {
        proof {
            lemma_be_value_bound(s@.subrange(start as int, start + i));
            assert(pow256(i as nat) <= pow256(7)) by {
                lemma_pow256_mono(i as nat, 7);
            }
            reveal_with_fuel(pow256, 8);
            assert(pow256(7) == 0x100000000000000);
        }
        let b = s[start + i];
        assert(s@.subrange(start as int, start + i + 1).drop_last() =~= s@.subrange(start as int, start + i));
        v = v * 256 + b as u64;
        i = i + 1;
    }
    v
}

proof fn lemma_pow256_mono(a: nat, b: nat)
    requires
        a <= b,
    ensures
        pow256(a) <= pow256(b),
    decreases b,
{
    if a < b {
        lemma_pow256_mono(a, (b - 1) as nat);
    }
}

/// Zero bytes.
pub open spec fn zeros(k: nat) -> Seq<u8> {
    Seq::new(k, |i: int| 0u8)
}

fn push_zeros(out: &mut Vec<u8>, k: usize)
    ensures
        final(out)@ == old(out)@ + zeros(k as nat),
{
    let mut i: usize = 0;
    while i < k
        invariant
            i <= k,
            out@ == old(out)@ + zeros(i as nat),
        decreases k - i,
    {
        out.push(0);
        assert(old(out)@ + zeros((i + 1) as nat) =~= (old(out)@ + zeros(i as nat)).push(0));
        i = i + 1;
    }
}


/// One match of a search: the file, the line number and the matched line.
pub struct Match {
    pub filename: String,
    pub line: usize,
    pub matched: String,
}

/// The mathematical content of a [`Match`].
pub struct MatchView {
    pub filename: Seq<char>,
    pub line: usize,
    pub matched: Seq<char>,
}

impl View for Match {
    type V = MatchView;

    open spec fn view(&self) -> MatchView {
        MatchView { filename: self.filename@, line: self.line, matched: self.matched@ }
    }
}

/// The views of a sequence of matches.
pub open spec fn match_views(v: Seq<Match>) -> Seq<MatchView> {
    v.map_values(|m: Match| m@)
}

/// Whether a match fits in a record: the file name in `NAME_LEN` bytes and
/// the line in `MATCH_LEN` bytes.
pub open spec fn fits(m: MatchView) -> bool {
    utf8_len(m.filename) <= NAME_LEN && utf8_len(m.matched) <= MATCH_LEN
}

/// The record of a match: the file name padded with zero bytes to
/// `NAME_LEN`, the line number as 8 big-endian bytes, the matched line padded
/// with zero bytes to `MATCH_LEN`.
pub open spec fn record_of(m: MatchView) -> Seq<u8> {
    encode_utf8(m.filename) + zeros((NAME_LEN - utf8_len(m.filename)) as nat) + be_bytes(
        m.line as nat,
        LINE_LEN as nat,
    ) + encode_utf8(m.matched) + zeros((MATCH_LEN - utf8_len(m.matched)) as nat)
}

/// Whether bytes can be read as a record: long enough, both texts valid
/// UTF-8, and a line number that fits in a `usize`.
pub open spec fn record_readable(b: Seq<u8>) -> bool {
    &&& b.len() >= NAME_LEN + LINE_LEN
    &&& valid_utf8(b.subrange(0, NAME_LEN as int))
    &&& valid_utf8(b.subrange((NAME_LEN + LINE_LEN) as int, b.len() as int))
    &&& be_value(b.subrange(NAME_LEN as int, (NAME_LEN + LINE_LEN) as int)) <= usize::MAX
}

/// The match that a record holds: the texts decoded and stripped of
/// trailing NULs, the line number read big-endian. Whatever follows the line
/// number is the matched line.
pub open spec fn match_of_record(b: Seq<u8>) -> MatchView {
    MatchView {
        filename: trim_nul(decode_utf8(b.subrange(0, NAME_LEN as int))),
        line: be_value(b.subrange(NAME_LEN as int, (NAME_LEN + LINE_LEN) as int)) as usize,
        matched: trim_nul(decode_utf8(b.subrange((NAME_LEN + LINE_LEN) as int, b.len() as int))),
    }
}

/// The bytes `s[from..to]`.
pub(crate) fn copy_bytes(s: &[u8], from: usize, to: usize) -> (r: Vec<u8>)
    requires
        from <= to <= s@.len(),
    ensures
        r@ == s@.subrange(from as int, to as int),
{
    let mut r: Vec<u8> = Vec::new();
    let mut i: usize = from;
    while i < to
        invariant
            from <= i <= to <= s@.len(),
            r@ == s@.subrange(from as int, i as int),
        decreases to - i,
    {
        r.push(s[i]);
        assert(s@.subrange(from as int, i + 1) =~= s@.subrange(from as int, i as int).push(s@[i as int]));
        i = i + 1;
    }
    r
}

/// Decodes `s[from..to]`, which must be valid UTF-8, dropping trailing NULs.
fn text_at(s: &[u8], from: usize, to: usize) -> (r: String)
    requires
        from <= to <= s@.len(),
        valid_utf8(s@.subrange(from as int, to as int)),
    ensures
        r@ == trim_nul(decode_utf8(s@.subrange(from as int, to as int))),
{
    let bytes = copy_bytes(s, from, to);
    match string_from_utf8(bytes) {
        Some(text) => trim_trailing_nul(text.as_str()),
        None => String::new(),
    }
}

impl Match {
    /// A copy of this match.
    pub fn copy(&self) -> (r: Match)
        ensures
            r@ == self@,
    {
        Match { filename: self.filename.clone(), line: self.line, matched: self.matched.clone() }
    }

    /// The record that keeps this match on disk (see `record_of`).
    pub fn to_record(&self) -> (r: Vec<u8>)
        requires
            fits(self@),
        ensures
            r@ == record_of(self@),
            r@.len() == DATA_LEN,
    {
        let mut r = self.filename.as_str().as_bytes_vec();
        let name_len: usize = r.len();
        push_zeros(&mut r, NAME_LEN - name_len);
        push_be(&mut r, self.line as u64, LINE_LEN);
        let mut m = self.matched.as_str().as_bytes_vec();
        let match_len: usize = m.len();
        r.append(&mut m);
        push_zeros(&mut r, MATCH_LEN - match_len);
        proof {
            lemma_be_bytes_len(self.line as nat, LINE_LEN as nat);
        }
        r
    }

    /// Reads a match back from its record (see `match_of_record`).
    pub fn from_record(value: &[u8]) -> (r: Match)
        requires
            record_readable(value@),
        ensures
            r@ == match_of_record(value@),
    {
        let n: usize = value.len();
        let filename = text_at(value, 0, NAME_LEN);
        let line: u64 = read_be(value, NAME_LEN, LINE_LEN);
        let matched = text_at(value, NAME_LEN + LINE_LEN, n);
        Match { filename, line: line as usize, matched }
    }
}

/// Whether a text ends with a NUL character (which a record cannot keep).
pub open spec fn ends_with_nul(s: Seq<char>) -> bool {
    s.len() > 0 && s.last() == '\0'
}

proof fn lemma_padded_text(s: Seq<char>, room: nat)
    requires
        utf8_len(s) <= room,
        !ends_with_nul(s),
    ensures
        ({
            let b = encode_utf8(s) + zeros((room - utf8_len(s)) as nat);
            &&& valid_utf8(b)
            &&& trim_nul(decode_utf8(b)) == s
            &&& b.len() == room
        }),
{
    broadcast use vstd::utf8::encode_utf8_valid_utf8, vstd::utf8::encode_utf8_decode_utf8;

    let k = (room - utf8_len(s)) as nat;
    lemma_encode_utf8_concat(s, nuls(k));
    lemma_encode_nuls(k);
    assert(zeros(k) =~= Seq::new(k, |i: int| 0u8));
    lemma_trim_nuls(s, k);
}

/// A record read back gives the match that was written, when the texts fit
/// and neither ends with a NUL character.
pub proof fn lemma_record_roundtrip(m: MatchView)
    requires
        fits(m),
        !ends_with_nul(m.filename),
        !ends_with_nul(m.matched),
    ensures
        record_of(m).len() == DATA_LEN,
        record_readable(record_of(m)),
        match_of_record(record_of(m)) == m,
{
    let b = record_of(m);
    let f = encode_utf8(m.filename) + zeros((NAME_LEN - utf8_len(m.filename)) as nat);
    let l = be_bytes(m.line as nat, LINE_LEN as nat);
    let t = encode_utf8(m.matched) + zeros((MATCH_LEN - utf8_len(m.matched)) as nat);
    lemma_padded_text(m.filename, NAME_LEN as nat);
    lemma_padded_text(m.matched, MATCH_LEN as nat);
    lemma_be_bytes_len(m.line as nat, LINE_LEN as nat);
    assert(b =~= f + l + t);
    assert(b.subrange(0, NAME_LEN as int) =~= f);
    assert(b.subrange(NAME_LEN as int, (NAME_LEN + LINE_LEN) as int) =~= l);
    assert(b.subrange((NAME_LEN + LINE_LEN) as int, b.len() as int) =~= t);
    reveal_with_fuel(pow256, 9);
    assert(m.line < pow256(8));
    lemma_be_roundtrip(m.line as nat, LINE_LEN as nat);
}


/// The index of the first zero byte (the length when there is none).
pub open spec fn first_zero(h: Seq<u8>) -> int
    decreases h.len(),
{
    if h.len() == 0 {
        0
    } else if h[0] == 0 {
        0
    } else {
        1 + first_zero(h.drop_first())
    }
}

/// What reading up to a zero byte and dropping the last byte read keeps:
/// the bytes before the first zero, or all but the last byte when there is
/// no zero.
pub open spec fn until_nul(h: Seq<u8>) -> Seq<u8> {
    if first_zero(h) < h.len() {
        h.take(first_zero(h))
    } else {
        h.take(h.len() - 1)
    }
}

proof fn lemma_first_zero(h: Seq<u8>)
    ensures
        0 <= first_zero(h) <= h.len(),
        forall|i: int| 0 <= i < first_zero(h) ==> h[i] != 0,
        first_zero(h) < h.len() ==> h[first_zero(h)] == 0,
    decreases h.len(),
{
    if h.len() > 0 && h[0] != 0 {
        lemma_first_zero(h.drop_first());
        assert forall|i: int| 0 <= i < first_zero(h) implies h[i] != 0 by {
            if i > 0 {
                assert(h[i] == h.drop_first()[i - 1]);
            }
        }
    }
}

/// The header of the last-search file: the version as 8 big-endian bytes,
/// then the directory searched padded with zero bytes to `NAME_LEN`.
pub open spec fn header_of(path: Seq<u8>) -> Seq<u8> {
    be_bytes(VERSION as nat, LINE_LEN as nat) + path + zeros((NAME_LEN - path.len()) as nat)
}

/// The records of a sequence of matches, one after another.
pub open spec fn records_of(ms: Seq<MatchView>) -> Seq<u8>
    decreases ms.len(),
{
    if ms.len() == 0 {
        Seq::empty()
    } else {
        records_of(ms.drop_last()) + record_of(ms.last())
    }
}

/// The whole last-search file for a directory and its matches.
pub open spec fn last_file_of(path: Seq<u8>, ms: Seq<MatchView>) -> Seq<u8> {
    header_of(path) + records_of(ms)
}

/// The `i`-th record of the data that follows the header.
pub open spec fn record_at(data: Seq<u8>, i: int) -> Seq<u8> {
    data.subrange(HEADER_LEN + DATA_LEN * i, HEADER_LEN + DATA_LEN * (i + 1))
}

/// How many whole records follow the header.
pub open spec fn record_count(data: Seq<u8>) -> int {
    (data.len() - HEADER_LEN) / (DATA_LEN as int)
}

/// The version written in a file's header.
pub open spec fn file_version(data: Seq<u8>) -> nat {
    be_value(data.subrange(0, LINE_LEN as int))
}

/// Whether the last-search file can be read: it holds a whole header, and
/// when its version is current, every whole record in it is readable.
pub open spec fn last_readable(data: Seq<u8>) -> bool {
    &&& data.len() >= HEADER_LEN
    &&& file_version(data) <= usize::MAX
    &&& file_version(data) == VERSION ==> forall|i: int|
        0 <= i < record_count(data) ==> record_readable(#[trigger] record_at(data, i))
}

/// What the last-search file holds: nothing when its version is not the
/// current one; else the directory (up to the first zero byte of the header)
/// and the match of every whole record.
pub open spec fn decode_last(data: Seq<u8>) -> Option<(Seq<u8>, Seq<MatchView>)> {
    if file_version(data) != VERSION {
        None
    } else {
        Some((
            until_nul(data.subrange(LINE_LEN as int, HEADER_LEN as int)),
            Seq::new(record_count(data) as nat, |i: int| match_of_record(record_at(data, i))),
        ))
    }
}

/// Reads the header off the front of the data: the version and the
/// directory, leaving the records in `data`.
pub fn read_header(data: &mut Vec<u8>) -> (r: (usize, Vec<u8>))
    requires
        old(data)@.len() >= HEADER_LEN,
        file_version(old(data)@) <= usize::MAX,
    ensures
        r.0 == file_version(old(data)@),
        r.1@ == until_nul(old(data)@.subrange(LINE_LEN as int, HEADER_LEN as int)),
        final(data)@ == old(data)@.subrange(HEADER_LEN as int, old(data)@.len() as int),
{
    let n: usize = data.len();
    let v: u64 = read_be(data.as_slice(), 0, LINE_LEN);
    let ghost h = data@.subrange(LINE_LEN as int, HEADER_LEN as int);
    let mut i: usize = LINE_LEN;
    while i < HEADER_LEN && data[i] != 0
        invariant
            LINE_LEN <= i <= HEADER_LEN,
            n == data@.len(),
            HEADER_LEN <= n,
            h == data@.subrange(LINE_LEN as int, HEADER_LEN as int),
            forall|j: int| 0 <= j < i - LINE_LEN ==> h[j] != 0,
        decreases HEADER_LEN - i,
    {
        i = i + 1;
    }
    proof {
        lemma_first_zero(h);
        let z = first_zero(h);
        if i < HEADER_LEN {
            assert(h[i - LINE_LEN] == 0);
            if z < i - LINE_LEN {
                assert(h[z] != 0);
            }
            assert(z == i - LINE_LEN);
        } else {
            if z < h.len() {
                assert(h[z] != 0);
            }
            assert(z == h.len());
        }
    }
    let end: usize = if i < HEADER_LEN { i } else { HEADER_LEN - 1 };
    let pwd = copy_bytes(data.as_slice(), LINE_LEN, end);
    assert(pwd@ =~= until_nul(h));
    let rest = copy_bytes(data.as_slice(), HEADER_LEN, n);
    *data = rest;
    (v as usize, pwd)
}

/// Whether the last-search file can be read (see `last_readable`).
pub fn last_file_readable(data: &[u8]) -> (b: bool)
    ensures
        b == last_readable(data@),
{
    let n: usize = data.len();
    if n < HEADER_LEN {
        return false;
    }
    let v: u64 = read_be(data, 0, LINE_LEN);
    if v > usize::MAX as u64 {
        return false;
    }
    if v != VERSION as u64 {
        return true;
    }
    let count: usize = (n - HEADER_LEN) / DATA_LEN;
    let mut i: usize = 0;
    while i < count
        invariant
            i <= count,
            n == data@.len(),
            n >= HEADER_LEN,
            count == record_count(data@),
            file_version(data@) == VERSION,
            forall|j: int| 0 <= j < i ==> record_readable(#[trigger] record_at(data@, j)),
        decreases count - i,
    {
        proof {
            lemma_record_in_bounds(n as int, i as int, count as int);
            assert(DATA_LEN * (i + 1) == DATA_LEN * i + DATA_LEN) by (nonlinear_arith);
        }
        let start: usize = HEADER_LEN + DATA_LEN * i;
        let end: usize = start + DATA_LEN;
        assert(record_at(data@, i as int) == data@.subrange(start as int, end as int));
        if !record_bytes_readable(data, start, end) {
            assert(!record_readable(record_at(data@, i as int)));
            assert(file_version(data@) == VERSION);
            return false;
        }
        i = i + 1;
    }
    true
}

proof fn lemma_record_in_bounds(n: int, i: int, count: int)
    requires
        n >= HEADER_LEN,
        count == (n - HEADER_LEN) / (DATA_LEN as int),
        0 <= i < count,
    ensures
        HEADER_LEN + DATA_LEN * (i + 1) <= n,
{
    let x = n - HEADER_LEN;
    let d = DATA_LEN as int;
    vstd::arithmetic::div_mod::lemma_fundamental_div_mod(x, d);
    assert(d * (i + 1) <= d * count) by (nonlinear_arith)
        requires i + 1 <= count, d > 0;
    assert(x % d >= 0);
}

/// Whether `data[start..end]` is readable as a record.
fn record_bytes_readable(data: &[u8], start: usize, end: usize) -> (b: bool)
    requires
        start + NAME_LEN + LINE_LEN <= end <= data@.len(),
    ensures
        b == record_readable(data@.subrange(start as int, end as int)),
{
    let ghost r = data@.subrange(start as int, end as int);
    assert(r.subrange(0, NAME_LEN as int) =~= data@.subrange(start as int, start + NAME_LEN));
    assert(r.subrange(NAME_LEN as int, (NAME_LEN + LINE_LEN) as int) =~= data@.subrange(
        start + NAME_LEN,
        start + NAME_LEN + LINE_LEN,
    ));
    assert(r.subrange((NAME_LEN + LINE_LEN) as int, r.len() as int) =~= data@.subrange(
        start + NAME_LEN + LINE_LEN,
        end as int,
    ));
    let name_ok = string_from_utf8(copy_bytes(data, start, start + NAME_LEN)).is_some();
    let line: u64 = read_be(data, start + NAME_LEN, LINE_LEN);
    let text_ok = string_from_utf8(copy_bytes(data, start + NAME_LEN + LINE_LEN, end)).is_some();
    name_ok && text_ok && line <= usize::MAX as u64
}


/// Reads the last-search file (see `decode_last`): nothing when its version
/// is not the current one, else the directory searched and the matches.
pub fn parse_last(contents: Vec<u8>) -> (r: Option<(Vec<u8>, Vec<Match>)>)
    requires
        last_readable(contents@),
    ensures
        (match r {
            None => decode_last(contents@) is None,
            Some((p, ms)) => decode_last(contents@) == Some((p@, match_views(ms@))),
        }),
{
    let ghost data = contents@;
    let mut s = contents;
    let (v, h) = read_header(&mut s);
    if v != VERSION {
        return None;
    }
    let n: usize = s.len();
    let count: usize = n / DATA_LEN;
    assert(count == record_count(data));
    let mut m: Vec<Match> = Vec::new();
    let mut i: usize = 0;
    while i < count
        invariant
            i <= count,
            n == s@.len(),
            count == n / DATA_LEN,
            count == record_count(data),
            s@ == data.subrange(HEADER_LEN as int, data.len() as int),
            file_version(data) == VERSION,
            last_readable(data),
            match_views(m@) == Seq::new(i as nat, |j: int| match_of_record(record_at(data, j))),
        decreases count - i,
    {
        proof {
            lemma_record_in_bounds(data.len() as int, i as int, count as int);
            assert(DATA_LEN * (i + 1) == DATA_LEN * i + DATA_LEN) by (nonlinear_arith);
        }
        let start: usize = DATA_LEN * i;
        let bytes = copy_bytes(s.as_slice(), start, start + DATA_LEN);
        assert(bytes@ =~= record_at(data, i as int));
        assert(record_readable(record_at(data, i as int)));
        let one = Match::from_record(bytes.as_slice());
        let ghost before = match_views(m@);
        m.push(one);
        assert(match_views(m@) =~= before.push(one@));
        assert(match_views(m@) =~= Seq::new((i + 1) as nat, |j: int| match_of_record(record_at(data, j))));
        i = i + 1;
    }
    Some((h, m))
}

/// The last-search file for a directory and its matches (see `last_file_of`).
pub fn encode_last(path: &[u8], results: &Vec<Match>) -> (r: Vec<u8>)
    requires
        path@.len() <= NAME_LEN,
        forall|i: int| 0 <= i < results@.len() ==> fits(#[trigger] results@[i]@),
    ensures
        r@ == last_file_of(path@, match_views(results@)),
{
    let mut r: Vec<u8> = Vec::new();
    push_be(&mut r, VERSION as u64, LINE_LEN);
    let mut p = copy_bytes(path, 0, path.len());
    assert(p@ =~= path@);
    r.append(&mut p);
    push_zeros(&mut r, NAME_LEN - path.len());
    assert(r@ =~= header_of(path@));
    let mut i: usize = 0;
    while i < results.len()
        invariant
            i <= results@.len(),
            forall|k: int| 0 <= k < results@.len() ==> fits(#[trigger] results@[k]@),
            r@ == header_of(path@) + records_of(match_views(results@).take(i as int)),
        decreases results@.len() - i,
    {
        let mut one = results[i].to_record();
        let ghost before = r@;
        r.append(&mut one);
        assert(match_views(results@).take(i + 1).drop_last() =~= match_views(results@).take(i as int));
        assert(r@ =~= header_of(path@) + records_of(match_views(results@).take(i + 1)));
        i = i + 1;
    }
    assert(match_views(results@).take(results@.len() as int) =~= match_views(results@));
    r
}

proof fn lemma_record_len(m: MatchView)
    requires
        fits(m),
    ensures
        record_of(m).len() == DATA_LEN,
{
    lemma_be_bytes_len(m.line as nat, LINE_LEN as nat);
}

proof fn lemma_mul_steps(d: int, i: int, n: int)
    requires
        0 <= i < n,
        d >= 0,
    ensures
        d * (i + 1) == d * i + d,
        d * (i + 1) <= d * n,
        d * i >= 0,
        d * n == d * (n - 1) + d,
{
    assert(d * (i + 1) == d * i + d) by (nonlinear_arith);
    assert(d * (i + 1) <= d * n) by (nonlinear_arith)
        requires i + 1 <= n, d >= 0;
    assert(d * i >= 0) by (nonlinear_arith)
        requires i >= 0, d >= 0;
    assert(d * n == d * (n - 1) + d) by (nonlinear_arith);
}

proof fn lemma_records_of(ms: Seq<MatchView>)
    requires
        forall|i: int| 0 <= i < ms.len() ==> fits(#[trigger] ms[i]),
    ensures
        records_of(ms).len() == DATA_LEN * ms.len(),
        forall|i: int|
            0 <= i < ms.len() ==> #[trigger] records_of(ms).subrange(DATA_LEN * i, DATA_LEN * (i + 1))
                == record_of(ms[i]),
    decreases ms.len(),
{
    if ms.len() > 0 {
        let h = ms.drop_last();
        lemma_records_of(h);
        lemma_record_len(ms.last());
        let all = records_of(ms);
        lemma_mul_steps(DATA_LEN as int, 0, ms.len() as int);
        assert forall|i: int| 0 <= i < ms.len() implies #[trigger] all.subrange(
            DATA_LEN * i,
            DATA_LEN * (i + 1),
        ) == record_of(ms[i]) by {
            lemma_mul_steps(DATA_LEN as int, i, ms.len() as int);
            if i < h.len() {
                lemma_mul_steps(DATA_LEN as int, i, h.len() as int);
                assert(all.subrange(DATA_LEN * i, DATA_LEN * (i + 1)) =~= records_of(h).subrange(
                    DATA_LEN * i,
                    DATA_LEN * (i + 1),
                ));
            } else {
                assert(all.subrange(DATA_LEN * i, DATA_LEN * (i + 1)) =~= record_of(ms.last()));
            }
        }
    }
}

proof fn lemma_first_zero_after(p: Seq<u8>, k: nat)
    requires
        k > 0,
        forall|j: int| 0 <= j < p.len() ==> p[j] != 0,
    ensures
        first_zero(p + zeros(k)) == p.len(),
    decreases p.len(),
{
    if p.len() > 0 {
        assert((p + zeros(k)).drop_first() =~= p.drop_first() + zeros(k));
        lemma_first_zero_after(p.drop_first(), k);
    }
}

/// The last-search file read back gives the directory and the matches that
/// were written, when the directory is shorter than `NAME_LEN` and holds no
/// zero byte, and every match fits and ends with no NUL character.
pub proof fn lemma_last_file_roundtrip(path: Seq<u8>, ms: Seq<MatchView>)
    requires
        path.len() < NAME_LEN,
        forall|j: int| 0 <= j < path.len() ==> path[j] != 0,
        forall|i: int| 0 <= i < ms.len() ==> fits(#[trigger] ms[i]),
        forall|i: int|
            0 <= i < ms.len() ==> !ends_with_nul(#[trigger] ms[i].filename) && !ends_with_nul(
                ms[i].matched,
            ),
    ensures
        last_readable(last_file_of(path, ms)),
        decode_last(last_file_of(path, ms)) == Some((path, ms)),
{
    let f = last_file_of(path, ms);
    let header = header_of(path);
    lemma_be_bytes_len(VERSION as nat, LINE_LEN as nat);
    lemma_records_of(ms);
    assert(header.len() == HEADER_LEN);
    assert(f.subrange(0, LINE_LEN as int) =~= be_bytes(VERSION as nat, LINE_LEN as nat));
    reveal_with_fuel(pow256, 9);
    lemma_be_roundtrip(VERSION as nat, LINE_LEN as nat);
    assert(file_version(f) == VERSION);
    let block = f.subrange(LINE_LEN as int, HEADER_LEN as int);
    assert(block =~= path + zeros((NAME_LEN - path.len()) as nat));
    lemma_first_zero_after(path, (NAME_LEN - path.len()) as nat);
    assert(until_nul(block) =~= path);
    assert(record_count(f) == ms.len()) by {
        assert(f.len() - HEADER_LEN == DATA_LEN * ms.len());
        vstd::arithmetic::div_mod::lemma_div_by_multiple(ms.len() as int, DATA_LEN as int);
    }
    assert forall|i: int| 0 <= i < record_count(f) implies record_at(f, i) == record_of(ms[i]) by {
        lemma_mul_steps(DATA_LEN as int, i, ms.len() as int);
        assert(record_at(f, i) =~= records_of(ms).subrange(DATA_LEN * i, DATA_LEN * (i + 1)));
    }
    assert forall|i: int| 0 <= i < record_count(f) implies record_readable(#[trigger] record_at(f, i))
        && match_of_record(record_at(f, i)) == ms[i] by {
        lemma_record_roundtrip(ms[i]);
    }
    assert(Seq::new(record_count(f) as nat, |i: int| match_of_record(record_at(f, i))) =~= ms);
}


/// The marker shown after a text that filled all its room: `>` when
/// `full`, nothing otherwise.
pub open spec fn full_mark(full: bool) -> Seq<char> {
    if full { ">"@ } else { ""@ }
}

/// The colored marker shown after a text that filled all its room.
pub open spec fn full_mark_colored(full: bool) -> Seq<char> {
    if full { "\x1b[1m\x1b[31m\u{1F187}\x1b[39m\x1b[0m"@ } else { ""@ }
}

/// A match as plain text: `file line matched`, each text followed by `>`
/// when it filled all its room.
pub open spec fn match_text(m: MatchView) -> Seq<char> {
    m.filename + full_mark(NAME_LEN == utf8_len(m.filename)) + " "@ + decimal(m.line as nat) + " "@
        + m.matched + full_mark(MATCH_LEN == utf8_len(m.matched))
}

/// A match in color: the file in magenta, the line number in blue, the
/// matched line in green. (The marker after the matched line compares its
/// length with `NAME_LEN`, as the file name's does.)
pub open spec fn match_colored(m: MatchView) -> Seq<char> {
    "\x1b[35m"@ + m.filename + full_mark_colored(NAME_LEN == utf8_len(m.filename)) + "\x1b[34m "@
        + decimal(m.line as nat) + "\x1b[32m "@ + m.matched + full_mark_colored(
        NAME_LEN == utf8_len(m.matched),
    ) + "\x1b[0m"@
}

/// Whether `c` may stand among the parameters of a terminal color
/// sequence: a digit or a semicolon.
pub open spec fn is_escape_param(c: char) -> bool {
    ('0' <= c && c <= '9') || c == ';'
}

/// Whether `c` is an ASCII letter.
pub open spec fn is_ascii_letter(c: char) -> bool {
    ('a' <= c && c <= 'z') || ('A' <= c && c <= 'Z')
}

/// Where the run of parameters that starts at `k` ends.
pub open spec fn params_end(s: Seq<char>, k: int) -> int
    decreases s.len() - k,
{
    if 0 <= k < s.len() && is_escape_param(s[k]) {
        params_end(s, k + 1)
    } else {
        k
    }
}

proof fn lemma_params_end_bounds(s: Seq<char>, k: int)
    requires
        0 <= k <= s.len(),
    ensures
        k <= params_end(s, k) <= s.len(),
    decreases s.len() - k,
{
    if k < s.len() && is_escape_param(s[k]) {
        lemma_params_end_bounds(s, k + 1);
    }
}

/// The length of the terminal color sequence at the start of `s`, if one
/// starts there: escape, `[`, digits and semicolons, then a letter.
pub open spec fn escape_len(s: Seq<char>) -> Option<int> {
    if s.len() >= 2 && s[0] == '\u{1b}' && s[1] == '[' {
        let e = params_end(s, 2);
        if 2 <= e < s.len() && is_ascii_letter(s[e]) {
            Some(e + 1)
        } else {
            None
        }
    } else {
        None
    }
}

/// A text with its terminal color sequences (escape, `[`, digits and
/// semicolons, then a letter) removed, from left to right.
pub open spec fn without_escapes(s: Seq<char>) -> Seq<char>
    decreases s.len(),
{
    if s.len() == 0 {
        Seq::empty()
    } else {
        match escape_len(s) {
            Some(n) => without_escapes(s.subrange(n, s.len() as int)),
            None => seq![s[0]] + without_escapes(s.drop_first()),
        }
    }
}

/// Text without an escape character is kept as it is.
proof fn lemma_without_escapes_plain(t: Seq<char>, b: Seq<char>)
    requires
        !t.contains('\u{1b}'),
    ensures
        without_escapes(t + b) == t + without_escapes(b),
    decreases t.len(),
{
    if t.len() > 0 {
        let s = t + b;
        assert(s[0] == t[0]);
        assert(t[0] != '\u{1b}') by {
            if t[0] == '\u{1b}' {
                assert(t.contains('\u{1b}'));
            }
        }
        assert(escape_len(s) is None);
        assert(s.drop_first() =~= t.drop_first() + b);
        assert forall|i: int| 0 <= i < t.drop_first().len() implies t.drop_first()[i] != '\u{1b}' by {
            assert(t.drop_first()[i] == t[i + 1]);
            if t[i + 1] == '\u{1b}' {
                assert(t.contains('\u{1b}'));
            }
        }
        lemma_without_escapes_plain(t.drop_first(), b);
        assert(t =~= seq![t[0]] + t.drop_first());
    } else {
        assert(t + b =~= b);
    }
}

proof fn lemma_params_end_run(s: Seq<char>, k: int, e: int)
    requires
        2 <= k <= e < s.len(),
        forall|i: int| k <= i < e ==> is_escape_param(#[trigger] s[i]),
        !is_escape_param(s[e]),
    ensures
        params_end(s, k) == e,
    decreases e - k,
{
    if k < e {
        lemma_params_end_run(s, k + 1, e);
    }
}

/// A color sequence at the front is removed.
proof fn lemma_without_escapes_sequence(e: Seq<char>, b: Seq<char>)
    requires
        e.len() >= 3,
        e[0] == '\u{1b}',
        e[1] == '[',
        forall|i: int| 2 <= i < e.len() - 1 ==> is_escape_param(#[trigger] e[i]),
        is_ascii_letter(e[e.len() - 1]),
    ensures
        without_escapes(e + b) == without_escapes(b),
{
    let s = e + b;
    let last = e.len() - 1;
    assert forall|i: int| 2 <= i < last implies is_escape_param(#[trigger] s[i]) by {
        assert(s[i] == e[i]);
    }
    assert(s[last] == e[last]);
    lemma_params_end_run(s, 2, last);
    assert(escape_len(s) == Some(e.len() as int));
    assert(s.subrange(e.len() as int, s.len() as int) =~= b);
}

/// The texts of a match hold no escape character and fill no room, and so
/// neither does the match as plain text.
proof fn lemma_plain_text_no_escape(m: MatchView)
    requires
        !m.filename.contains('\u{1b}'),
        !m.matched.contains('\u{1b}'),
        utf8_len(m.filename) != NAME_LEN,
        utf8_len(m.matched) != MATCH_LEN,
    ensures
        !match_text(m).contains('\u{1b}'),
{
    reveal_strlit(" ");
    reveal_strlit("");
    lemma_decimal_no_escape(m.line as nat);
    let t = match_text(m);
    assert(t =~= m.filename + " "@ + decimal(m.line as nat) + " "@ + m.matched);
    if t.contains('\u{1b}') {
        let i = choose|i: int| 0 <= i < t.len() && t[i] == '\u{1b}';
        let a = m.filename.len() as int;
        let d = decimal(m.line as nat).len() as int;
        if i < a {
            assert(m.filename[i] == '\u{1b}');
        } else if i == a {
        } else if i < a + 1 + d {
            assert(decimal(m.line as nat)[i - a - 1] == '\u{1b}');
        } else if i == a + 1 + d {
        } else {
            assert(m.matched[i - a - 2 - d] == '\u{1b}');
        }
    }
}

/// A decimal rendering holds no escape character.
proof fn lemma_decimal_no_escape(n: nat)
    ensures
        !decimal(n).contains('\u{1b}'),
{
    lemma_decimal_digits(n);
    let dec = decimal(n);
    if dec.contains('\u{1b}') {
        let i = choose|i: int| 0 <= i < dec.len() && dec[i] == '\u{1b}';
        assert(is_digit(dec[i]));
    }
}

/// A single space holds no escape character.
proof fn lemma_space_no_escape()
    ensures
        !" "@.contains('\u{1b}'),
{
    reveal_strlit(" ");
    if " "@.contains('\u{1b}') {
        let i = choose|i: int| 0 <= i < " "@.len() && " "@[i] == '\u{1b}';
    }
}

/// Removing color sequences from a match shown in color, followed by more
/// text, leaves the match as plain text followed by what removing them from
/// the rest leaves.
proof fn lemma_colors_removed_then(m: MatchView, b: Seq<char>)
    requires
        !m.filename.contains('\u{1b}'),
        !m.matched.contains('\u{1b}'),
        utf8_len(m.filename) != NAME_LEN,
        utf8_len(m.matched) != MATCH_LEN,
    ensures
        without_escapes(match_colored(m) + b) == match_text(m) + without_escapes(b),
{
    reveal_strlit("\x1b[35m");
    reveal_strlit("\x1b[34m ");
    reveal_strlit("\x1b[32m ");
    reveal_strlit("\x1b[0m");
    reveal_strlit(" ");
    reveal_strlit("");
    reveal_strlit("\x1b[34m");
    reveal_strlit("\x1b[32m");
    let e1 = "\x1b[35m"@;
    let e2 = "\x1b[34m"@;
    let e3 = "\x1b[32m"@;
    let e4 = "\x1b[0m"@;
    let sp = " "@;
    let dec = decimal(m.line as nat);
    lemma_decimal_no_escape(m.line as nat);
    lemma_space_no_escape();
    let x8 = e4 + b;
    let x7 = m.matched + x8;
    let x6 = sp + x7;
    let x5 = e3 + x6;
    let x4 = dec + x5;
    let x3 = sp + x4;
    let x2 = e2 + x3;
    let x1 = m.filename + x2;
    assert(match_colored(m) + b =~= e1 + x1);
    lemma_without_escapes_sequence(e1, x1);
    lemma_without_escapes_plain(m.filename, x2);
    lemma_without_escapes_sequence(e2, x3);
    lemma_without_escapes_plain(sp, x4);
    lemma_without_escapes_plain(dec, x5);
    lemma_without_escapes_sequence(e3, x6);
    lemma_without_escapes_plain(sp, x7);
    lemma_without_escapes_plain(m.matched, x8);
    lemma_without_escapes_sequence(e4, b);
    assert(match_text(m) + without_escapes(b) =~= m.filename + (sp + (dec + (sp + (m.matched
        + without_escapes(b))))));
}

/// Removing the color sequences from a match shown in color gives the match
/// as plain text, when neither of its texts holds an escape character or
/// fills all its room.
pub proof fn lemma_colors_removed(m: MatchView)
    requires
        !m.filename.contains('\u{1b}'),
        !m.matched.contains('\u{1b}'),
        utf8_len(m.filename) != NAME_LEN,
        utf8_len(m.matched) != MATCH_LEN,
    ensures
        without_escapes(match_colored(m)) == match_text(m),
{
    lemma_colors_removed_then(m, Seq::<char>::empty());
    assert(match_colored(m) + Seq::<char>::empty() =~= match_colored(m));
    assert(without_escapes(Seq::<char>::empty()) =~= Seq::<char>::empty());
    assert(match_text(m) + Seq::<char>::empty() =~= match_text(m));
}

fn byte_len(s: &String) -> (n: usize)
    ensures
        n == utf8_len(s@),
{
    s.as_str().as_bytes().len()
}

fn push_mark(s: &mut String, full: bool)
    ensures
        final(s)@ == old(s)@ + full_mark(full),
{
    if full {
        s.append(">");
    } else {
        s.append("");
    }
}

fn push_mark_colored(s: &mut String, full: bool)
    ensures
        final(s)@ == old(s)@ + full_mark_colored(full),
{
    if full {
        s.append("\x1b[1m\x1b[31m\u{1F187}\x1b[39m\x1b[0m");
    } else {
        s.append("");
    }
}

impl Match {
    /// The match as plain text (see `match_text`).
    pub fn to_text(&self) -> (r: String)
        ensures
            r@ == match_text(self@),
    {
        let mut r = String::new();
        r.append(self.filename.as_str());
        push_mark(&mut r, NAME_LEN == byte_len(&self.filename));
        r.append(" ");
        push_decimal(&mut r, self.line);
        r.append(" ");
        r.append(self.matched.as_str());
        push_mark(&mut r, MATCH_LEN == byte_len(&self.matched));
        assert(r@ =~= match_text(self@));
        r
    }

    /// The match in color (see `match_colored`).
    pub fn disp(&self) -> (r: String)
        ensures
            r@ == match_colored(self@),
    {
        let mut r = String::new();
        r.append("\x1b[35m");
        r.append(self.filename.as_str());
        push_mark_colored(&mut r, NAME_LEN == byte_len(&self.filename));
        r.append("\x1b[34m ");
        push_decimal(&mut r, self.line);
        r.append("\x1b[32m ");
        r.append(self.matched.as_str());
        push_mark_colored(&mut r, NAME_LEN == byte_len(&self.matched));
        r.append("\x1b[0m");
        assert(r@ =~= match_colored(self@));
        r
    }
}

/// How the directory searched is named: "this directory" when it is empty
/// or the current one, its text when it is valid UTF-8, else
/// "{unprintable_string}".
pub open spec fn place_name(path: Seq<u8>, is_here: bool) -> Seq<char> {
    if path.len() == 0 || is_here {
        "this directory"@
    } else if valid_utf8(path) {
        decode_utf8(path)
    } else {
        "{unprintable_string}"@
    }
}

/// Names the directory searched (see `place_name`); `is_here` tells whether
/// it is the current directory.
pub fn place_label(path: &[u8], is_here: bool) -> (r: String)
    ensures
        r@ == place_name(path@, is_here),
{
    if path.len() == 0 || is_here {
        return "this directory".to_owned();
    }
    match string_from_utf8(copy_bytes(path, 0, path.len())) {
        Some(s) => {
            assert(path@.subrange(0, path@.len() as int) =~= path@);
            s
        },
        None => {
            assert(path@.subrange(0, path@.len() as int) =~= path@);
            "{unprintable_string}".to_owned()
        },
    }
}

/// The line that introduces the results: `Within <place>:`, the place in
/// magenta in color mode.
pub open spec fn head_line(place: Seq<char>, color: bool) -> Seq<char> {
    if color {
        "Within \x1b[35m"@ + place + "\x1b[39m:"@
    } else {
        "Within "@ + place + ":"@
    }
}

/// The line of the `i`-th result: its number, then the match; in color the
/// number is red and every other line is bold.
pub open spec fn result_line(i: nat, m: MatchView, color: bool) -> Seq<char> {
    if color {
        if i % 2 == 0 {
            "\x1b[31m"@ + decimal(i) + "\x1b[39m "@ + match_colored(m)
        } else {
            "\x1b[31m"@ + decimal(i) + "\x1b[39m \x1b[1m"@ + match_colored(m) + "\x1b[0m"@
        }
    } else {
        decimal(i) + " "@ + match_text(m)
    }
}

/// The line of the `i`-th result shows `i`, the id to open it by, then a
/// space and the result, in both modes: with its color sequences removed,
/// a line shown in color is the id, a space and the match as plain text,
/// and so is the plain line.
pub proof fn lemma_result_line_id(i: nat, m: MatchView, color: bool)
    requires
        !m.filename.contains('\u{1b}'),
        !m.matched.contains('\u{1b}'),
        utf8_len(m.filename) != NAME_LEN,
        utf8_len(m.matched) != MATCH_LEN,
    ensures
        without_escapes(result_line(i, m, color)) == decimal(i) + " "@ + match_text(m),
{
    reveal_strlit("\x1b[31m");
    reveal_strlit("\x1b[39m ");
    reveal_strlit("\x1b[39m \x1b[1m");
    reveal_strlit("\x1b[39m");
    reveal_strlit("\x1b[1m");
    reveal_strlit("\x1b[0m");
    reveal_strlit(" ");
    let e31 = "\x1b[31m"@;
    let e39 = "\x1b[39m"@;
    let e1 = "\x1b[1m"@;
    let e0 = "\x1b[0m"@;
    let sp = " "@;
    let dec = decimal(i);
    let mt = match_text(m);
    let empty = Seq::<char>::empty();
    lemma_decimal_no_escape(i);
    lemma_space_no_escape();
    lemma_plain_text_no_escape(m);
    assert(without_escapes(empty) =~= empty);
    let want = dec + (sp + (mt + empty));
    assert(want =~= dec + " "@ + mt);
    if !color {
        assert(result_line(i, m, color) =~= dec + (sp + (mt + empty)));
        lemma_without_escapes_plain(dec, sp + (mt + empty));
        lemma_without_escapes_plain(sp, mt + empty);
        lemma_without_escapes_plain(mt, empty);
    } else if i % 2 == 0 {
        let mc = match_colored(m);
        assert(result_line(i, m, color) =~= e31 + (dec + (e39 + (sp + (mc + empty)))));
        lemma_without_escapes_sequence(e31, dec + (e39 + (sp + (mc + empty))));
        lemma_without_escapes_plain(dec, e39 + (sp + (mc + empty)));
        lemma_without_escapes_sequence(e39, sp + (mc + empty));
        lemma_without_escapes_plain(sp, mc + empty);
        lemma_colors_removed_then(m, empty);
    } else {
        let mc = match_colored(m);
        assert(result_line(i, m, color) =~= e31 + (dec + (e39 + (sp + (e1 + (mc + (e0 + empty)))))));
        lemma_without_escapes_sequence(e31, dec + (e39 + (sp + (e1 + (mc + (e0 + empty))))));
        lemma_without_escapes_plain(dec, e39 + (sp + (e1 + (mc + (e0 + empty)))));
        lemma_without_escapes_sequence(e39, sp + (e1 + (mc + (e0 + empty))));
        lemma_without_escapes_plain(sp, e1 + (mc + (e0 + empty)));
        lemma_without_escapes_sequence(e1, mc + (e0 + empty));
        lemma_colors_removed_then(m, e0 + empty);
        lemma_without_escapes_sequence(e0, empty);
    }
}

/// The introducing line for the directory searched.
pub fn display_head(path: &[u8], is_here: bool, color: bool) -> (r: String)
    ensures
        r@ == head_line(place_name(path@, is_here), color),
{
    let p = place_label(path, is_here);
    let mut r = String::new();
    if color {
        r.append("Within \x1b[35m");
        r.append(p.as_str());
        r.append("\x1b[39m:");
    } else {
        r.append("Within ");
        r.append(p.as_str());
        r.append(":");
    }
    assert(r@ =~= head_line(place_name(path@, is_here), color));
    r
}

/// The line of the `index`-th result.
pub fn display_once(index: usize, result: &Match, color: bool) -> (r: String)
    ensures
        r@ == result_line(index as nat, result@, color),
{
    let mut r = String::new();
    if color {
        r.append("\x1b[31m");
        push_decimal(&mut r, index);
        if index % 2 == 0 {
            r.append("\x1b[39m ");
            r.append(result.disp().as_str());
        } else {
            r.append("\x1b[39m \x1b[1m");
            r.append(result.disp().as_str());
            r.append("\x1b[0m");
        }
    } else {
        push_decimal(&mut r, index);
        r.append(" ");
        r.append(result.to_text().as_str());
    }
    assert(r@ =~= result_line(index as nat, result@, color));
    r
}

/// The lines that show a search: the introducing line, then one line per
/// result, numbered from 0.
pub fn display(path: &[u8], is_here: bool, result: &Vec<Match>, color: bool) -> (r: Vec<String>)
    ensures
        r@.len() == result@.len() + 1,
        r@[0]@ == head_line(place_name(path@, is_here), color),
        forall|i: int|
            0 <= i < result@.len() ==> #[trigger] r@[i + 1]@ == result_line(i as nat, result@[i]@, color),
{
    let mut r: Vec<String> = Vec::new();
    r.push(display_head(path, is_here, color));
    let mut i: usize = 0;
    while i < result.len()
        invariant
            i <= result@.len(),
            r@.len() == i + 1,
            r@[0]@ == head_line(place_name(path@, is_here), color),
            forall|k: int| 0 <= k < i ==> #[trigger] r@[k + 1]@ == result_line(k as nat, result@[k]@, color),
        decreases result@.len() - i,
    {
        r.push(display_once(i, &result[i], color));
        i = i + 1;
    }
    r
}

/// Whether a color setting is known: `always` or `yes` (color), `never` or
/// `no` (no color).
pub open spec fn is_color_setting(s: Seq<char>) -> bool {
    s == "always"@ || s == "yes"@ || s == "never"@ || s == "no"@
}

/// Whether a color setting is known (see `is_color_setting`).
pub fn is_color(setting: &str) -> (b: bool)
    ensures
        b == is_color_setting(setting@),
{
    same_text(setting, "always") || same_text(setting, "yes") || same_text(setting, "never")
        || same_text(setting, "no")
}

/// Whether a color setting asks for color.
pub fn color(setting: &str) -> (b: bool)
    requires
        is_color_setting(setting@),
    ensures
        b == (setting@ == "always"@ || setting@ == "yes"@),
{
    proof {
        reveal_strlit("always");
        reveal_strlit("yes");
        reveal_strlit("never");
        reveal_strlit("no");
        assert("always"@.len() == 6 && "yes"@.len() == 3 && "never"@.len() == 5 && "no"@.len() == 2);
    }
    same_text(setting, "always") || same_text(setting, "yes")
}

} // verus!
