//! Reading a search tool's output into matches.
use vstd::prelude::*;
use vstd::string::StringExecFns;
use crate::common::{Match, MatchView, NAME_LEN, MATCH_LEN, match_views, be_bytes, push_be};
use crate::text::push_char;
use crate::pattern::{captures_by_name, capture_rows, named_captures, replace_all, replaced_all};
use crate::text::{parse_unsigned, parse_usize, restrict, restricted, texts, trim_start_text, trimmed_start, utf8_len, lemma_restricted_fitting};

verus! {

/// Where a part of a line stands (its index among the parts) and the text
/// around it.
pub type Item = (usize, &'static str, &'static str);

/// How a search tool writes a match: where the file name, the line number
/// and the matched line stand in a line of output, and what surrounds each.
pub struct OutputFormat {
    /// The file name.
    filename: Item,
    /// The line number.
    line: Item,
    /// The matched line itself.
    matched: Item,
}

/// The mathematical content of an [`OutputFormat`] part.
pub type ItemView = (usize, Seq<char>, Seq<char>);

/// The mathematical content of an [`OutputFormat`].
pub struct OutputFormatView {
    pub filename: ItemView,
    pub line: ItemView,
    pub matched: ItemView,
}

impl View for OutputFormat {
    type V = OutputFormatView;

    closed spec fn view(&self) -> OutputFormatView {
        OutputFormatView {
            filename: (self.filename.0, self.filename.1@, self.filename.2@),
            line: (self.line.0, self.line.1@, self.line.2@),
            matched: (self.matched.0, self.matched.1@, self.matched.2@),
        }
    }
}

/// The output format of grep, ripgrep and ugrep alike:
/// `file:line:matched` and a newline.
pub open spec fn plain_format() -> OutputFormatView {
    OutputFormatView {
        filename: (0, ""@, ""@),
        line: (1, ":"@, ":"@),
        matched: (2, ""@, "\n"@),
    }
}

fn plain() -> (f: OutputFormat)
    ensures
        f@ == plain_format(),
{
    OutputFormat { filename: (0, "", ""), line: (1, ":", ":"), matched: (2, "", "\n") }
}

/// The output format of GNU grep.
pub fn grep_format() -> (f: OutputFormat)
    ensures
        f@ == plain_format(),
{
    plain()
}

/// The output format of ripgrep.
pub fn ripgrep_format() -> (f: OutputFormat)
    ensures
        f@ == plain_format(),
{
    plain()
}

/// The output format of ugrep.
pub fn ugrep_format() -> (f: OutputFormat)
    ensures
        f@ == plain_format(),
{
    plain()
}

/// Whether `t` names a known tool.
pub open spec fn is_tool_name(t: Seq<char>) -> bool {
    t == "grep"@ || t == "ripgrep"@ || t == "ugrep"@
}

/// The output format of a tool.
pub fn picker(tool: &str) -> (f: OutputFormat)
    requires
        is_tool_name(tool@),
    ensures
        f@ == plain_format(),
{
    plain()
}

/// Pieces keyed by position, with `x` put after every piece whose key is
/// not larger (the step of a stable insertion sort).
pub open spec fn insert_by_key(s: Seq<(usize, Seq<char>)>, x: (usize, Seq<char>)) -> Seq<(usize, Seq<char>)>
    decreases s.len(),
{
    if s.len() == 0 {
        seq![x]
    } else if s.last().0 <= x.0 {
        s.push(x)
    } else {
        insert_by_key(s.drop_last(), x).push(s.last())
    }
}

/// Pieces stably sorted by key.
pub open spec fn sort_by_key(s: Seq<(usize, Seq<char>)>) -> Seq<(usize, Seq<char>)>
    decreases s.len(),
{
    if s.len() == 0 {
        Seq::empty()
    } else {
        insert_by_key(sort_by_key(s.drop_last()), s.last())
    }
}

/// The texts of pieces, one after another.
pub open spec fn concat_pieces(s: Seq<(usize, Seq<char>)>) -> Seq<char>
    decreases s.len(),
{
    if s.len() == 0 {
        Seq::empty()
    } else {
        concat_pieces(s.drop_last()) + s.last().1
    }
}

/// The regular expression of a part: its text before, the group, its text
/// after.
pub open spec fn part_pattern(i: ItemView, group: Seq<char>) -> (usize, Seq<char>) {
    (i.0, i.1 + group + i.2)
}

/// The regular expression that reads one match of a format: the parts'
/// patterns ordered by position, with the file name in group `f`, the line
/// number in group `l` and the matched line in group `m`.
pub open spec fn output_pattern(f: OutputFormatView) -> Seq<char> {
    concat_pieces(sort_by_key(seq![
        part_pattern(f.filename, "(?P<f>.+)"@),
        part_pattern(f.line, "(?P<l>(\\d)+)"@),
        part_pattern(f.matched, "(?P<m>.+)"@),
    ]))
}

/// The view of keyed pieces.
pub open spec fn pieces_view(v: Seq<(usize, String)>) -> Seq<(usize, Seq<char>)> {
    v.map_values(|p: (usize, String)| (p.0, p.1@))
}

fn insert_piece(v: &mut Vec<(usize, String)>, x: (usize, String))
    ensures
        pieces_view(final(v)@) == insert_by_key(pieces_view(old(v)@), (x.0, x.1@)),
    decreases old(v)@.len(),
{
    let n: usize = v.len();
    if n == 0 {
        v.push(x);
        assert(pieces_view(v@) =~= seq![(x.0, x.1@)]);
    } else if v[n - 1].0 <= x.0 {
        let ghost before = pieces_view(v@);
        v.push(x);
        assert(pieces_view(v@) =~= before.push((x.0, x.1@)));
    } else {
        let ghost before = pieces_view(v@);
        let y = v.pop().unwrap();
        assert(pieces_view(v@) =~= before.drop_last());
        let ghost yv = (y.0, y.1@);
        insert_piece(v, x);
        let ghost mid = pieces_view(v@);
        v.push(y);
        assert(pieces_view(v@) =~= mid.push(yv));
    }
}

fn piece(i: &Item, group: &str) -> (p: (usize, String))
    ensures
        (p.0, p.1@) == part_pattern((i.0, i.1@, i.2@), group@),
{
    let mut s: String = i.1.to_owned();
    s.append(group);
    s.append(i.2);
    (i.0, s)
}

/// The regular expression that reads one match of a format (see
/// `output_pattern`).
pub fn create_outputformat(format: &OutputFormat) -> (r: String)
    ensures
        r@ == output_pattern(format@),
{
    let p0 = piece(&format.filename, "(?P<f>.+)");
    let p1 = piece(&format.line, "(?P<l>(\\d)+)");
    let p2 = piece(&format.matched, "(?P<m>.+)");
    let ghost all = seq![(p0.0, p0.1@), (p1.0, p1.1@), (p2.0, p2.1@)];
    let mut c: Vec<(usize, String)> = Vec::new();
    assert(pieces_view(c@) =~= Seq::<(usize, Seq<char>)>::empty());
    assert(sort_by_key(Seq::<(usize, Seq<char>)>::empty()) =~= Seq::<(usize, Seq<char>)>::empty());
    insert_piece(&mut c, p0);
    assert(all.take(1).drop_last() =~= Seq::<(usize, Seq<char>)>::empty());
    assert(pieces_view(c@) == sort_by_key(all.take(1)));
    insert_piece(&mut c, p1);
    assert(all.take(2).drop_last() =~= all.take(1));
    assert(pieces_view(c@) == sort_by_key(all.take(2)));
    insert_piece(&mut c, p2);
    assert(all.take(3).drop_last() =~= all.take(2));
    assert(all.take(3) =~= all);
    assert(pieces_view(c@) == sort_by_key(all));
    let mut q = String::new();
    let mut i: usize = 0;
    while i < c.len()
        invariant
            i <= c@.len(),
            q@ == concat_pieces(pieces_view(c@).take(i as int)),
        decreases c@.len() - i,
    {
        q.append(c[i].1.as_str());
        assert(pieces_view(c@).take(i + 1).drop_last() =~= pieces_view(c@).take(i as int));
        i = i + 1;
    }
    assert(pieces_view(c@).take(c@.len() as int) =~= pieces_view(c@));
    q
}


/// The names of the groups that hold the file name, the line number and
/// the matched line.
pub open spec fn group_names() -> Seq<Seq<char>> {
    seq!["f"@, "l"@, "m"@]
}

/// Whether a row of captures can be read as a match: all three groups took
/// part and the line number is a number that fits in a `usize`.
pub open spec fn row_readable(row: Seq<Option<Seq<char>>>) -> bool {
    &&& row.len() == 3
    &&& row[0] is Some
    &&& row[1] is Some
    &&& row[2] is Some
    &&& parse_unsigned(row[1].unwrap(), usize::MAX as nat) is Some
}

/// The match of a row of captures: the file name cut to `NAME_LEN` bytes,
/// the line number, the matched line cut to `MATCH_LEN` bytes.
pub open spec fn row_match(row: Seq<Option<Seq<char>>>) -> MatchView {
    MatchView {
        filename: restricted(row[0].unwrap(), NAME_LEN as nat),
        line: parse_unsigned(row[1].unwrap(), usize::MAX as nat).unwrap() as usize,
        matched: restricted(row[2].unwrap(), MATCH_LEN as nat),
    }
}

/// Reading a row keeps the file name and the matched line exactly as the
/// tool printed them when they fit their room (nothing is trimmed or
/// otherwise changed), and takes the line number that the captured digits
/// denote.
pub proof fn lemma_row_match_as_printed(row: Seq<Option<Seq<char>>>)
    requires
        row_readable(row),
    ensures
        utf8_len(row[0].unwrap()) <= NAME_LEN ==> row_match(row).filename == row[0].unwrap(),
        utf8_len(row[2].unwrap()) <= MATCH_LEN ==> row_match(row).matched == row[2].unwrap(),
        parse_unsigned(row[1].unwrap(), usize::MAX as nat) == Some(row_match(row).line as nat),
{
    if utf8_len(row[0].unwrap()) <= NAME_LEN {
        lemma_restricted_fitting(row[0].unwrap(), NAME_LEN as nat);
    }
    if utf8_len(row[2].unwrap()) <= MATCH_LEN {
        lemma_restricted_fitting(row[2].unwrap(), MATCH_LEN as nat);
    }
}

/// Each match read from rows comes from the row at the same place, with its
/// matched line as printed when it fits (see `lemma_row_match_as_printed`).
pub proof fn lemma_rows_read_as_printed(rows: Seq<Seq<Option<Seq<char>>>>, k: int)
    requires
        0 <= k < rows.len(),
        forall|i: int| 0 <= i < rows.len() ==> row_readable(#[trigger] rows[i]),
        utf8_len(rows[k][2].unwrap()) <= MATCH_LEN,
    ensures
        rows.map_values(|row: Seq<Option<Seq<char>>>| row_match(row))[k].matched == rows[k][2].unwrap(),
{
    lemma_row_match_as_printed(rows[k]);
}

/// The captures of a format's pattern over a tool's output.
pub open spec fn output_rows(f: OutputFormatView, text: Seq<char>) -> Option<Seq<Seq<Option<Seq<char>>>>> {
    named_captures(output_pattern(f), text, group_names())
}

/// Whether a tool's output can be read: the pattern compiles and every
/// match in it is readable.
pub open spec fn read_ok(f: OutputFormatView, text: Seq<char>) -> bool {
    &&& output_rows(f, text) is Some
    &&& forall|i: int|
        0 <= i < output_rows(f, text).unwrap().len() ==> row_readable(
            #[trigger] output_rows(f, text).unwrap()[i],
        )
}

/// The matches read from a tool's output, in order.
pub open spec fn read_result(f: OutputFormatView, text: Seq<char>) -> Seq<MatchView> {
    output_rows(f, text).unwrap().map_values(|row: Seq<Option<Seq<char>>>| row_match(row))
}

fn group_names_vec() -> (v: Vec<String>)
    ensures
        texts(v@) == group_names(),
{
    let v = vec!["f".to_owned(), "l".to_owned(), "m".to_owned()];
    assert(texts(v@) =~= group_names());
    v
}

/// The matches of rows of captures (see `row_readable` and `row_match`), or
/// nothing when a row cannot be read.
pub fn matches_of_rows(rows: &Vec<Vec<Option<String>>>) -> (r: Option<Vec<Match>>)
    ensures
        r is Some <==> (forall|i: int|
            0 <= i < rows@.len() ==> row_readable(#[trigger] capture_rows(rows@)[i])),
        r matches Some(v) ==> match_views(v@) == capture_rows(rows@).map_values(
            |row: Seq<Option<Seq<char>>>| row_match(row),
        ),
{
    let ghost rv = capture_rows(rows@);
    let mut matches: Vec<Match> = Vec::new();
    let mut i: usize = 0;
    while i < rows.len()
        invariant
            i <= rows@.len(),
            rv == capture_rows(rows@),
            rv.len() == rows@.len(),
            forall|k: int| 0 <= k < i ==> row_readable(#[trigger] rv[k]),
            match_views(matches@) == rv.take(i as int).map_values(
                |row: Seq<Option<Seq<char>>>| row_match(row),
            ),
        decreases rows@.len() - i,
    {
        let row = &rows[i];
        assert(rv[i as int] == crate::pattern::optional_texts(row@));
        assert(rv[i as int].len() == row@.len());
        if row.len() != 3 {
            assert(!row_readable(rv[i as int]));
            return None;
        }
        assert(rv[i as int][0] == (match row@[0] { Some(s) => Some(s@), None => None::<Seq<char>> }));
        assert(rv[i as int][1] == (match row@[1] { Some(s) => Some(s@), None => None::<Seq<char>> }));
        assert(rv[i as int][2] == (match row@[2] { Some(s) => Some(s@), None => None::<Seq<char>> }));
        let f = match &row[0] {
            Some(f) => f,
            None => {
                assert(!row_readable(rv[i as int]));
                return None;
            },
        };
        let l = match &row[1] {
            Some(l) => l,
            None => {
                assert(!row_readable(rv[i as int]));
                return None;
            },
        };
        let m = match &row[2] {
            Some(m) => m,
            None => {
                assert(!row_readable(rv[i as int]));
                return None;
            },
        };
        let line = match parse_usize(l.as_str()) {
            Some(line) => line,
            None => {
                assert(!row_readable(rv[i as int]));
                return None;
            },
        };
        let one = Match {
            filename: restrict(f.as_str(), NAME_LEN),
            line,
            matched: restrict(m.as_str(), MATCH_LEN),
        };
        assert(row_readable(rv[i as int]));
        assert(one@ == row_match(rv[i as int]));
        let ghost before = match_views(matches@);
        matches.push(one);
        assert(match_views(matches@) =~= before.push(one@));
        assert(rv.take(i + 1).map_values(|row: Seq<Option<Seq<char>>>| row_match(row)) =~= rv.take(
            i as int,
        ).map_values(|row: Seq<Option<Seq<char>>>| row_match(row)).push(row_match(rv[i as int])));
        i = i + 1;
    }
    assert(rv.take(rows@.len() as int) =~= rv);
    Some(matches)
}

/// Reads the matches in a tool's output, or nothing when it cannot be read
/// (see `read_ok` and `read_result`).
pub fn try_read(format: &OutputFormat, text: &str) -> (r: Option<Vec<Match>>)
    ensures
        r is Some <==> read_ok(format@, text@),
        r matches Some(v) ==> match_views(v@) == read_result(format@, text@),
{
    let pattern = create_outputformat(format);
    let names = group_names_vec();
    let rows = match captures_by_name(pattern.as_str(), text, &names) {
        Some(rows) => rows,
        None => return None,
    };
    let ghost rv = capture_rows(rows@);
    assert(output_rows(format@, text@) == Some(rv));
    assert(rv.len() == rows@.len());
    let r = matches_of_rows(&rows);
    proof {
        if r is Some {
            assert forall|i: int| 0 <= i < rv.len() implies row_readable(#[trigger] rv[i]) by {}
        } else {
            let k = choose|k: int| 0 <= k < rows@.len() && !row_readable(#[trigger] capture_rows(rows@)[k]);
            assert(!row_readable(output_rows(format@, text@).unwrap()[k]));
        }
    }
    r
}

/// Reads the matches in a tool's output (see `read_result`).
pub fn read(format: OutputFormat, text: &str) -> (r: Vec<Match>)
    requires
        read_ok(format@, text@),
    ensures
        match_views(r@) == read_result(format@, text@),
{
    match try_read(&format, text) {
        Some(v) => v,
        None => Vec::new(),
    }
}

/// The regular expression of a terminal color sequence.
pub open spec fn escape_pattern() -> Seq<char> {
    "\\u{1b}\\[([0-9;]*)[a-zA-Z]"@
}

/// A text with its terminal color sequences removed, or nothing when the
/// pattern does not compile (see `replaced_all`).
pub fn try_strip(text: &str) -> (r: Option<String>)
    ensures
        (match r {
            Some(s) => replaced_all(escape_pattern(), text@, ""@) == Some(s@),
            None => replaced_all(escape_pattern(), text@, ""@) is None,
        }),
{
    match replace_all("\\u{1b}\\[([0-9;]*)[a-zA-Z]", text, "") {
        Some(_) => Some(strip(text)),
        None => None,
    }
}

/// A text with its terminal color sequences removed.
pub fn strip(text: &str) -> (r: String)
    requires
        replaced_all(escape_pattern(), text@, ""@) is Some,
    ensures
        replaced_all(escape_pattern(), text@, ""@) == Some(r@),
{
    match replace_all("\\u{1b}\\[([0-9;]*)[a-zA-Z]", text, "") {
        Some(s) => s,
        None => String::new(),
    }
}

/// A result with the leading white space of its matched line removed.
pub open spec fn without_leading(m: MatchView) -> MatchView {
    MatchView { filename: m.filename, line: m.line, matched: trimmed_start(m.matched) }
}

/// The results with the leading white space of each matched line removed.
pub fn remove_leading(results: &Vec<Match>) -> (r: Vec<Match>)
    ensures
        match_views(r@) == match_views(results@).map_values(|m: MatchView| without_leading(m)),
{
    let mut r: Vec<Match> = Vec::new();
    let mut i: usize = 0;
    while i < results.len()
        invariant
            i <= results@.len(),
            match_views(r@) =~= match_views(results@).take(i as int).map_values(
                |m: MatchView| without_leading(m),
            ),
        decreases results@.len() - i,
    {
        let one = Match {
            filename: results[i].filename.clone(),
            line: results[i].line,
            matched: trim_start_text(results[i].matched.as_str()),
        };
        let ghost before = match_views(r@);
        r.push(one);
        assert(match_views(r@) =~= before.push(without_leading(results@[i as int]@)));
        assert(match_views(results@).take(i + 1) =~= match_views(results@).take(i as int).push(
            results@[i as int]@,
        ));
        i = i + 1;
    }
    assert(match_views(results@).take(results@.len() as int) =~= match_views(results@));
    r
}

/// The lines that show matches found in this directory.
pub fn display(result: &Vec<Match>, color: bool) -> (r: Vec<String>)
    ensures
        r@.len() == result@.len() + 1,
        r@[0]@ == crate::common::head_line("this directory"@, color),
        forall|i: int|
            0 <= i < result@.len() ==> #[trigger] r@[i + 1]@ == crate::common::result_line(
                i as nat,
                result@[i]@,
                color,
            ),
{
    let empty: Vec<u8> = Vec::new();
    crate::common::display(empty.as_slice(), false, result, color)
}


/// Items kept up to a maximum count, remembering the maximum.
pub struct Overflowable<T>(Vec<T>, usize);

impl<T> View for Overflowable<T> {
    type V = (Seq<T>, usize);

    closed spec fn view(&self) -> (Seq<T>, usize) {
        (self.0@, self.1)
    }
}

impl<T> Overflowable<T> {
    /// Never more items than the maximum.
    #[verifier::type_invariant]
    spec fn within(self) -> bool {
        self.0@.len() <= self.1
    }
}

impl<T: Copy> Overflowable<T> {
    /// Keeps at most `max` items of `value`, from the start.
    pub fn new(value: &[T], max: usize) -> (o: Self)
        ensures
            o@.0 == value@.take(if value@.len() < max { value@.len() as int } else { max as int }),
            o@.1 == max,
    {
        let n: usize = value.len();
        let top: usize = if n < max { n } else { max };
        let mut v: Vec<T> = Vec::new();
        let mut i: usize = 0;
        while i < top
            invariant
                i <= top <= n,
                n == value@.len(),
                v@ == value@.take(i as int),
            decreases top - i,
        {
            v.push(value[i]);
            assert(value@.take(i + 1) =~= value@.take(i as int).push(value@[i as int]));
            i = i + 1;
        }
        Overflowable(v, max)
    }
}

impl Overflowable<u8> {
    /// The bytes, then one `'0'` byte for each unused place.
    pub fn to_bytes(&self) -> (r: Vec<u8>)
        ensures
            self@.0.len() <= self@.1,
            r@ == self@.0 + Seq::new((self@.1 - self@.0.len()) as nat, |i: int| 48u8),
    {
        proof {
            use_type_invariant(self);
        }
        let mut r: Vec<u8> = Vec::new();
        let n: usize = self.0.len();
        let mut i: usize = 0;
        while i < n
            invariant
                i <= n,
                n == self.0@.len(),
                r@ == self.0@.take(i as int),
            decreases n - i,
        {
            r.push(self.0[i]);
            assert(self.0@.take(i + 1) =~= self.0@.take(i as int).push(self.0@[i as int]));
            i = i + 1;
        }
        assert(self.0@.take(n as int) =~= self.0@);
        let pad: usize = self.1 - n;
        let mut k: usize = 0;
        while k < pad
            invariant
                k <= pad,
                n == self.0@.len(),
                pad == self.1 - n,
                r@ == self.0@ + Seq::new(k as nat, |i: int| 48u8),
            decreases pad - k,
        {
            r.push(48u8);
            assert(Seq::new((k + 1) as nat, |i: int| 48u8) =~= Seq::new(k as nat, |i: int| 48u8).push(48u8));
            k = k + 1;
        }
        r
    }
}

/// The marker shown after characters that filled all their room.
pub open spec fn overflow_mark(full: bool) -> Seq<char> {
    if full { "\x1b[1m\x1b[31m\u{25C0}\u{FE0E}\x1b[0m"@ } else { ""@ }
}

/// Each character as 4 big-endian bytes of its code point.
pub open spec fn wide_bytes(s: Seq<char>) -> Seq<u8>
    decreases s.len(),
{
    if s.len() == 0 {
        Seq::empty()
    } else {
        wide_bytes(s.drop_last()) + be_bytes(s.last() as u32 as nat, 4)
    }
}

impl Overflowable<char> {
    /// The characters, followed by a red marker when they filled all their
    /// room.
    pub fn to_text(&self) -> (r: String)
        ensures
            r@ == self@.0 + overflow_mark(self@.1 == self@.0.len()),
    {
        let mut r = String::new();
        let mut i: usize = 0;
        while i < self.0.len()
            invariant
                i <= self.0@.len(),
                r@ == self.0@.take(i as int),
            decreases self.0@.len() - i,
        {
            push_char(&mut r, self.0[i]);
            assert(self.0@.take(i + 1) =~= self.0@.take(i as int).push(self.0@[i as int]));
            i = i + 1;
        }
        assert(self.0@.take(self.0@.len() as int) =~= self.0@);
        if self.1 == self.0.len() {
            r.append("\x1b[1m\x1b[31m\u{25C0}\u{FE0E}\x1b[0m");
        } else {
            r.append("");
        }
        r
    }

    /// Each character as 4 big-endian bytes, then one `'0'` byte for each
    /// unused place.
    pub fn to_bytes(&self) -> (r: Vec<u8>)
        ensures
            self@.0.len() <= self@.1,
            r@ == wide_bytes(self@.0) + Seq::new((self@.1 - self@.0.len()) as nat, |i: int| 48u8),
    {
        proof {
            use_type_invariant(self);
        }
        let mut r: Vec<u8> = Vec::new();
        let mut i: usize = 0;
        let n: usize = self.0.len();
        while i < n
            invariant
                i <= n,
                n == self.0@.len(),
                r@ == wide_bytes(self.0@.take(i as int)),
            decreases n - i,
        {
            let c = self.0[i];
            push_be(&mut r, c as u32 as u64, 4);
            assert(self.0@.take(i + 1).drop_last() =~= self.0@.take(i as int));
            i = i + 1;
        }
        assert(self.0@.take(n as int) =~= self.0@);
        let mut k: usize = 0;
        let pad: usize = self.1 - n;
        while k < pad
            invariant
                k <= pad,
                n == self.0@.len(),
                pad == self.1 - n,
                r@ == wide_bytes(self.0@) + Seq::new(k as nat, |i: int| 48u8),
            decreases pad - k,
        {
            r.push(48u8);
            assert(Seq::new((k + 1) as nat, |i: int| 48u8) =~= Seq::new(k as nat, |i: int| 48u8).push(48u8));
            k = k + 1;
        }
        r
    }
}

} // verus!
