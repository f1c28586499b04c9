//! The description of a command-line argument (its name, kind, default and
//! formatting) and how filled-in arguments become command-line words.
use vstd::prelude::*;
use vstd::string::StringExecFns;
use vstd::string::StringSliceAdditionalSpecFns;
use std::cmp::Ordering;
use vstd::utf8::{decode_utf8, is_char_boundary};
use crate::text::{parse_bounded, parse_unsigned, push_char, texts, compare_text, same_text, text_order, lemma_text_order_antisymmetric, lemma_text_order_transitive};
use crate::pattern::{captures_by_name, named_captures, optional_texts, capture_rows};

verus! {

/// A position in the argument list: only the order of positions matters.
pub type Index = u8;

/// A name of the form `-<short>` or `--<long>`: the name sent on the command
/// line. Short and long names are mutually exclusive.
pub enum Name {
    /// A short name, `-<short>`, e.g. `-j`.
    Short(char),
    /// A long name, `--<long>`, e.g. `--exclude`.
    Long(String),
    /// A long name given by a constant; becomes `Long` once the entry is filled.
    LongC(&'static str),
    /// A blank name: a positional argument. Only the order of positions matters.
    Blank(Index),
    /// Skip this entry.
    Undefined,
}

/// The mathematical content of a [`Name`].
pub enum NameView {
    Short(char),
    Long(Seq<char>),
    LongC(Seq<char>),
    Blank(u8),
    Undefined,
}

impl View for Name {
    type V = NameView;

    open spec fn view(&self) -> NameView {
        match self {
            Name::Short(c) => NameView::Short(*c),
            Name::Long(s) => NameView::Long(s@),
            Name::LongC(s) => NameView::LongC(s@),
            Name::Blank(i) => NameView::Blank(*i),
            Name::Undefined => NameView::Undefined,
        }
    }
}

/// Where a kind of name stands in the argument list: positional arguments
/// first, then short names, then long names; undefined names last.
pub open spec fn name_rank(n: NameView) -> int {
    match n {
        NameView::Blank(_) => 0,
        NameView::Short(_) => 1,
        NameView::Long(_) => 2,
        NameView::LongC(_) => 2,
        NameView::Undefined => 3,
    }
}

/// The text of a long name.
pub open spec fn long_text(n: NameView) -> Seq<char> {
    match n {
        NameView::Long(s) => s,
        NameView::LongC(s) => s,
        _ => Seq::empty(),
    }
}

/// The order of names (-1, 0, 1): by rank, then by position, character or
/// text. A `Long` and a `LongC` with the same text are the same name.
pub open spec fn name_order(a: NameView, b: NameView) -> int {
    if name_rank(a) < name_rank(b) {
        -1
    } else if name_rank(a) > name_rank(b) {
        1
    } else {
        match (a, b) {
            (NameView::Blank(i), NameView::Blank(j)) => if i < j { -1 } else if i > j { 1 } else { 0 },
            (NameView::Short(c), NameView::Short(d)) => if c < d { -1 } else if c > d { 1 } else { 0 },
            (NameView::Undefined, NameView::Undefined) => 0,
            _ => text_order(long_text(a), long_text(b)),
        }
    }
}

/// The partial order of names: defined between positional, short and (non
/// constant) long names, and agreeing with `name_order` there.
pub open spec fn name_partial_order(a: NameView, b: NameView) -> Option<int> {
    match (a, b) {
        (NameView::Blank(_), NameView::Blank(_)) => Some(name_order(a, b)),
        (NameView::Blank(_), NameView::Long(_)) => Some(-1),
        (NameView::Blank(_), NameView::Short(_)) => Some(-1),
        (NameView::Long(_), NameView::Blank(_)) => Some(1),
        (NameView::Long(_), NameView::Long(_)) => Some(name_order(a, b)),
        (NameView::Long(_), NameView::Short(_)) => Some(1),
        (NameView::Short(_), NameView::Blank(_)) => Some(1),
        (NameView::Short(_), NameView::Long(_)) => Some(-1),
        (NameView::Short(_), NameView::Short(_)) => Some(name_order(a, b)),
        _ => None,
    }
}

/// The `Ordering` that an order value in -1, 0, 1 stands for.
pub open spec fn ordering_of(v: int) -> Ordering {
    if v < 0 { Ordering::Less } else if v > 0 { Ordering::Greater } else { Ordering::Equal }
}

/// Name order is antisymmetric, and names are equal in it exactly when they
/// are the same name.
pub proof fn lemma_name_order_antisymmetric(a: NameView, b: NameView)
    ensures
        name_order(a, b) == -name_order(b, a),
        -1 <= name_order(a, b) <= 1,
        name_order(a, b) == 0 <==> (a == b || (name_rank(a) == 2 && name_rank(b) == 2
            && long_text(a) == long_text(b))),
{
    lemma_text_order_antisymmetric(long_text(a), long_text(b));
}

/// Name order is transitive.
pub proof fn lemma_name_order_transitive(a: NameView, b: NameView, c: NameView)
    requires
        name_order(a, b) <= 0,
        name_order(b, c) <= 0,
    ensures
        name_order(a, c) <= 0,
        name_order(a, b) < 0 || name_order(b, c) < 0 ==> name_order(a, c) < 0,
{
    lemma_text_order_antisymmetric(long_text(a), long_text(b));
    lemma_text_order_antisymmetric(long_text(b), long_text(c));
    lemma_text_order_antisymmetric(long_text(a), long_text(c));
    if name_rank(a) == 2 && name_rank(b) == 2 && name_rank(c) == 2 {
        lemma_text_order_transitive(long_text(a), long_text(b), long_text(c));
    }
}

/// Where the partial order is defined, it agrees with the total order.
pub proof fn lemma_partial_order_agrees(a: NameView, b: NameView)
    ensures
        name_partial_order(a, b) matches Some(v) ==> v == name_order(a, b),
{
}

/// How a name is written on the command line.
pub open spec fn name_text(n: NameView) -> Seq<char> {
    match n {
        NameView::Short(c) => seq!['-', c],
        NameView::Long(s) => seq!['-', '-'] + s,
        _ => Seq::empty(),
    }
}

/// A name with its constant text turned into an owned long name.
pub open spec fn cleaned(n: NameView) -> NameView {
    match n {
        NameView::LongC(s) => NameView::Long(s),
        _ => n,
    }
}

/// Owning a constant long name keeps it the same name: it compares equal to
/// what it was, and in the same way to every other name.
pub proof fn lemma_cleaned_same_name(n: NameView, m: NameView)
    ensures
        name_order(cleaned(n), n) == 0,
        name_order(cleaned(n), m) == name_order(n, m),
{
    lemma_text_order_antisymmetric(long_text(n), long_text(n));
}

/// One argument word as a named argument carries it: `--name=value`, or
/// the bare name for an empty value.
pub open spec fn named_word(n: NameView, c: Seq<char>) -> Seq<char> {
    if c.len() > 0 {
        name_text(n) + seq!['='] + c
    } else {
        name_text(n)
    }
}

/// The argument words of a name: positional and undefined names leave the
/// words as they are; other names prefix each word.
pub open spec fn named_words(n: NameView, words: Seq<Seq<char>>) -> Seq<Seq<char>> {
    match n {
        NameView::Blank(_) => words,
        NameView::Undefined => words,
        _ => words.map_values(|c: Seq<char>| named_word(n, c)),
    }
}

/// A copy of a string.
fn copy_string(s: &String) -> (r: String)
    ensures
        r@ == s@,
{
    s.clone()
}

impl Name {
    /// The name that a `Default` gives: an undefined one.
    pub fn undefined() -> (n: Name)
        ensures
            n@ == NameView::Undefined,
    {
        Name::Undefined
    }

    /// A copy of this name.
    pub fn copy(&self) -> (n: Name)
        ensures
            n@ == self@,
    {
        match self {
            Name::Short(c) => Name::Short(*c),
            Name::Long(s) => Name::Long(copy_string(s)),
            Name::LongC(s) => Name::LongC(s),
            Name::Blank(i) => Name::Blank(*i),
            Name::Undefined => Name::Undefined,
        }
    }

    /// How the name is written on the command line: `-c`, `--long`, or
    /// nothing for a positional name.
    pub fn text(&self) -> (s: String)
        requires
            !(self@ is LongC),
            !(self@ is Undefined),
        ensures
            s@ == name_text(self@),
    {
        match self {
            Name::Short(c) => {
                let mut s = String::new();
                push_char(&mut s, '-');
                push_char(&mut s, *c);
                s
            },
            Name::Long(l) => {
                let mut s = String::new();
                push_char(&mut s, '-');
                push_char(&mut s, '-');
                s.append(l.as_str());
                s
            },
            _ => String::new(),
        }
    }

    /// Order of two names as -1, 0 or 1 (see `name_order`).
    pub fn order(&self, other: &Name) -> (r: i8)
        ensures
            r == name_order(self@, other@),
    {
        let ra: u8 = self.rank();
        let rb: u8 = other.rank();
        if ra < rb {
            return -1;
        }
        if ra > rb {
            return 1;
        }
        match (self, other) {
            (Name::Blank(i), Name::Blank(j)) => {
                if *i < *j { -1 } else if *i > *j { 1 } else { 0 }
            },
            (Name::Short(c), Name::Short(d)) => {
                if *c < *d { -1 } else if *c > *d { 1 } else { 0 }
            },
            (Name::Undefined, Name::Undefined) => 0,
            _ => compare_text(self.long_str(), other.long_str()),
        }
    }

    /// Order of two names (see `name_order`).
    pub fn compare(&self, other: &Name) -> (r: Ordering)
        ensures
            r == ordering_of(name_order(self@, other@)),
    {
        let v: i8 = self.order(other);
        if v < 0 { Ordering::Less } else if v > 0 { Ordering::Greater } else { Ordering::Equal }
    }

    /// Whether two names are the same name (a `Long` and a `LongC` with the
    /// same text are).
    pub fn equals(&self, other: &Name) -> (b: bool)
        ensures
            b == (name_order(self@, other@) == 0),
    {
        self.order(other) == 0
    }

    /// The partial order of two names (see `name_partial_order`).
    pub fn partial_compare(&self, other: &Name) -> (r: Option<Ordering>)
        ensures
            r == (match name_partial_order(self@, other@) {
                Some(v) => Some(ordering_of(v)),
                None => None::<Ordering>,
            }),
    {
        match (self, other) {
            (Name::Blank(_), Name::Blank(_)) => Some(self.compare(other)),
            (Name::Blank(_), Name::Long(_)) => Some(Ordering::Less),
            (Name::Blank(_), Name::Short(_)) => Some(Ordering::Less),
            (Name::Long(_), Name::Blank(_)) => Some(Ordering::Greater),
            (Name::Long(_), Name::Long(_)) => Some(self.compare(other)),
            (Name::Long(_), Name::Short(_)) => Some(Ordering::Greater),
            (Name::Short(_), Name::Blank(_)) => Some(Ordering::Greater),
            (Name::Short(_), Name::Long(_)) => Some(Ordering::Less),
            (Name::Short(_), Name::Short(_)) => Some(self.compare(other)),
            _ => None,
        }
    }

    fn rank(&self) -> (r: u8)
        ensures
            r == name_rank(self@),
    {
        match self {
            Name::Blank(_) => 0,
            Name::Short(_) => 1,
            Name::Long(_) => 2,
            Name::LongC(_) => 2,
            Name::Undefined => 3,
        }
    }

    fn long_str(&self) -> (s: &str)
        ensures
            s@ == long_text(self@),
    {
        match self {
            Name::Long(l) => l.as_str(),
            Name::LongC(l) => l,
            _ => {
                proof {
                    reveal_strlit("");
                }
                ""
            },
        }
    }

    /// Turns a constant long name into an owned one.
    pub fn cleanup(&mut self)
        ensures
            final(self)@ == cleaned(old(self)@),
    {
        match self {
            Name::LongC(s) => {
                let owned = s.to_owned();
                *self = Name::Long(owned);
            },
            _ => {},
        }
    }

    /// Writes the name into each argument word: `--name=word`, or the bare
    /// name for an empty word. Positional and undefined names change nothing.
    pub fn name(&self, arglist: &mut Vec<String>)
        requires
            (self@ is LongC) ==> old(arglist)@.len() == 0,
        ensures
            texts(final(arglist)@) == named_words(self@, texts(old(arglist)@)),
    {
        match self {
            Name::Blank(_) => {},
            Name::Undefined => {},
            _ => {
                let n: usize = arglist.len();
                let ghost before = texts(arglist@);
                let mut i: usize = 0;
                while i < n
                    invariant
                        n == arglist@.len(),
                        before.len() == n,
                        i <= n,
                        (self@ is LongC) ==> n == 0,
                        !(self@ is Blank) && !(self@ is Undefined),
                        forall|k: int| 0 <= k < i ==> #[trigger] arglist@[k]@ == named_word(self@, before[k]),
                        forall|k: int| i <= k < n ==> #[trigger] arglist@[k]@ == before[k],
                    decreases n - i,
                {
                    let c = &arglist[i];
                    let mut w = self.text();
                    if !c.as_str().is_empty() {
                        push_char(&mut w, '=');
                        w.append(c.as_str());
                    }
                    assert(w@ == named_word(self@, before[i as int]));
                    arglist.set(i, w);
                    i = i + 1;
                }
                assert(texts(arglist@) =~= named_words(self@, before));
            },
        }
    }
}


/// A path handed to the search tool, held as the text it is shown as.
pub struct PathText {
    pub text: String,
}

impl View for PathText {
    type V = Seq<char>;

    open spec fn view(&self) -> Seq<char> {
        self.text@
    }
}

/// The views of a sequence of paths.
pub open spec fn path_texts(v: Seq<PathText>) -> Seq<Seq<char>> {
    v.map_values(|p: PathText| p@)
}

/// The kind of value an argument takes, with the value once it is filled.
pub enum Argument {
    /// A collection of texts.
    CollectionText(Option<Vec<String>>),
    /// A text designating a file.
    PathPattern(Option<PathText>),
    /// A list of file designators.
    CollectionPathPattern(Option<Vec<PathText>>),
    /// A plain text.
    Text(Option<String>),
    /// A flag that is either there or not.
    BooleanFlag(Option<bool>),
    /// A number.
    Number(Option<isize>),
    /// Nothing.
    Empty(Option<()>),
}

/// The mathematical content of an [`Argument`].
pub enum ArgumentView {
    CollectionText(Option<Seq<Seq<char>>>),
    PathPattern(Option<Seq<char>>),
    CollectionPathPattern(Option<Seq<Seq<char>>>),
    Text(Option<Seq<char>>),
    BooleanFlag(Option<bool>),
    Number(Option<isize>),
    Empty(Option<()>),
}

impl View for Argument {
    type V = ArgumentView;

    open spec fn view(&self) -> ArgumentView {
        match self {
            Argument::CollectionText(x) => ArgumentView::CollectionText(
                match x { Some(v) => Some(texts(v@)), None => None },
            ),
            Argument::PathPattern(x) => ArgumentView::PathPattern(
                match x { Some(p) => Some(p@), None => None },
            ),
            Argument::CollectionPathPattern(x) => ArgumentView::CollectionPathPattern(
                match x { Some(v) => Some(path_texts(v@)), None => None },
            ),
            Argument::Text(x) => ArgumentView::Text(
                match x { Some(s) => Some(s@), None => None },
            ),
            Argument::BooleanFlag(x) => ArgumentView::BooleanFlag(*x),
            Argument::Number(x) => ArgumentView::Number(*x),
            Argument::Empty(x) => ArgumentView::Empty(*x),
        }
    }
}

/// Formatting applied to an argument's words.
#[derive(Clone, Copy)]
pub enum Formatter {
    /// No formatting.
    Default,
    /// A prefix put before each word.
    Prefix(&'static str),
}

/// The mathematical content of a [`Formatter`].
pub enum FormatterView {
    Default,
    Prefix(Seq<char>),
}

impl View for Formatter {
    type V = FormatterView;

    open spec fn view(&self) -> FormatterView {
        match self {
            Formatter::Default => FormatterView::Default,
            Formatter::Prefix(p) => FormatterView::Prefix(p@),
        }
    }
}

/// What an argument falls back to when it is not given.
pub enum DefaultValue {
    /// It cannot be left out.
    Mandatory,
    /// It is left out.
    Skip,
    /// It takes this value.
    Default(Argument),
}

/// The mathematical content of a [`DefaultValue`].
pub enum DefaultValueView {
    Mandatory,
    Skip,
    Default(ArgumentView),
}

impl View for DefaultValue {
    type V = DefaultValueView;

    open spec fn view(&self) -> DefaultValueView {
        match self {
            DefaultValue::Mandatory => DefaultValueView::Mandatory,
            DefaultValue::Skip => DefaultValueView::Skip,
            DefaultValue::Default(a) => DefaultValueView::Default(a@),
        }
    }
}

/// One argument of a search tool's command line.
pub struct Entry {
    pub defaults_to: DefaultValue,
    pub format: (Formatter, Formatter),
    pub target_name: Name,
    pub target_type: Argument,
}

/// The mathematical content of an [`Entry`].
pub struct EntryView {
    pub defaults_to: DefaultValueView,
    pub format: (FormatterView, FormatterView),
    pub target_name: NameView,
    pub target_type: ArgumentView,
}

impl View for Entry {
    type V = EntryView;

    open spec fn view(&self) -> EntryView {
        EntryView {
            defaults_to: self.defaults_to@,
            format: (self.format.0@, self.format.1@),
            target_name: self.target_name@,
            target_type: self.target_type@,
        }
    }
}

/// The views of a sequence of entries.
pub open spec fn entry_views(v: Seq<Entry>) -> Seq<EntryView> {
    v.map_values(|e: Entry| e@)
}

/// The error of a failed conversion.
pub struct Error {}

/// The argument a default value stands for.
pub open spec fn default_argument(d: DefaultValueView) -> ArgumentView {
    match d {
        DefaultValueView::Skip => ArgumentView::Empty(Some(())),
        DefaultValueView::Default(x) => x,
        DefaultValueView::Mandatory => ArgumentView::Empty(None),
    }
}

/// The words of an argument whose value is there (`None` when it is not).
pub open spec fn present_values(a: ArgumentView) -> Option<Seq<Seq<char>>> {
    match a {
        ArgumentView::BooleanFlag(Some(true)) => Some(seq![Seq::empty()]),
        ArgumentView::BooleanFlag(_) => Some(Seq::empty()),
        ArgumentView::Text(Some(s)) => Some(seq![s]),
        ArgumentView::PathPattern(Some(p)) => Some(seq![p]),
        ArgumentView::Empty(Some(_)) => Some(Seq::empty()),
        ArgumentView::CollectionText(Some(v)) => Some(v),
        ArgumentView::CollectionPathPattern(Some(v)) => Some(v),
        ArgumentView::Number(Some(_)) => Some(Seq::empty()),
        _ => None,
    }
}

/// The words of a missing value, taken from the default: none for a skipped
/// argument, the default's own words for a default, and nothing at all
/// (`None`: the argument was mandatory) otherwise.
pub open spec fn fallback_values(d: ArgumentView) -> Option<Seq<Seq<char>>> {
    match d {
        ArgumentView::Empty(Some(_)) => Some(Seq::empty()),
        ArgumentView::Empty(None) => None,
        _ => present_values(d),
    }
}

/// The words an entry generates, or `None` where a mandatory value is missing.
pub open spec fn entry_values(e: EntryView) -> Option<Seq<Seq<char>>> {
    match present_values(e.target_type) {
        Some(v) => Some(v),
        None => fallback_values(default_argument(e.defaults_to)),
    }
}

/// Words with a formatter applied.
pub open spec fn prefixed(f: FormatterView, words: Seq<Seq<char>>) -> Seq<Seq<char>> {
    match f {
        FormatterView::Default => words,
        FormatterView::Prefix(p) => words.map_values(|c: Seq<char>| p + c),
    }
}

/// Whether an entry can be written out: its value (or default) is there,
/// and a constant long name has no words to carry.
pub open spec fn render_ok(e: EntryView) -> bool {
    &&& entry_values(e) is Some
    &&& (e.target_name is LongC) ==> entry_values(e).unwrap().len() == 0
}

/// How many words an argument whose value is there gives (`None` when it is
/// not; see `present_values`).
fn present_count(a: &Argument) -> (r: Option<usize>)
    ensures
        (match r {
            Some(n) => present_values(a@) is Some && present_values(a@).unwrap().len() == n,
            None => present_values(a@) is None,
        }),
{
    match a {
        Argument::BooleanFlag(Some(true)) => Some(1),
        Argument::BooleanFlag(_) => Some(0),
        Argument::Text(Some(_)) => Some(1),
        Argument::PathPattern(Some(_)) => Some(1),
        Argument::Empty(Some(_)) => Some(0),
        Argument::CollectionText(Some(v)) => Some(v.len()),
        Argument::CollectionPathPattern(Some(v)) => Some(v.len()),
        Argument::Number(Some(_)) => Some(0),
        _ => None,
    }
}

impl Entry {
    /// Whether the entry can be written out (see `render_ok`).
    pub fn ready(&self) -> (b: bool)
        ensures
            b == render_ok(self@),
    {
        let count = match present_count(&self.target_type) {
            Some(n) => Some(n),
            None => match &self.defaults_to {
                DefaultValue::Skip => Some(0),
                DefaultValue::Mandatory => None,
                DefaultValue::Default(x) => match x {
                    Argument::Empty(Some(_)) => Some(0),
                    Argument::Empty(None) => None,
                    _ => present_count(x),
                },
            },
        };
        match count {
            None => false,
            Some(n) => match &self.target_name {
                Name::LongC(_) => n == 0,
                _ => true,
            },
        }
    }
}

/// The command-line words of one entry: its words, formatted, then named.
pub open spec fn render_entry(e: EntryView) -> Seq<Seq<char>> {
    named_words(e.target_name, prefixed(e.format.1, entry_values(e).unwrap()))
}

/// The command-line words of a sequence of entries, in order.
pub open spec fn render_all(es: Seq<EntryView>) -> Seq<Seq<char>>
    decreases es.len(),
{
    if es.len() == 0 {
        Seq::empty()
    } else {
        render_all(es.drop_last()) + render_entry(es.last())
    }
}

/// A copy of a vector of strings.
fn copy_texts(v: &Vec<String>) -> (r: Vec<String>)
    ensures
        texts(r@) == texts(v@),
{
    let mut r: Vec<String> = Vec::new();
    let mut i: usize = 0;
    while i < v.len()
        invariant
            i <= v@.len(),
            texts(r@) == texts(v@).take(i as int),
        decreases v@.len() - i,
    {
        let ghost before = texts(r@);
        r.push(copy_string(&v[i]));
        assert(texts(r@) =~= before.push(v@[i as int]@));
        assert(texts(v@).take(i + 1) =~= texts(v@).take(i as int).push(v@[i as int]@));
        i = i + 1;
    }
    assert(texts(v@).take(v@.len() as int) =~= texts(v@));
    r
}

impl PathText {
    /// A copy of this path.
    pub fn copy(&self) -> (r: PathText)
        ensures
            r@ == self@,
    {
        PathText { text: copy_string(&self.text) }
    }
}

/// A copy of a vector of paths.
fn copy_paths(v: &Vec<PathText>) -> (r: Vec<PathText>)
    ensures
        path_texts(r@) == path_texts(v@),
{
    let mut r: Vec<PathText> = Vec::new();
    let mut i: usize = 0;
    while i < v.len()
        invariant
            i <= v@.len(),
            path_texts(r@) == path_texts(v@).take(i as int),
        decreases v@.len() - i,
    {
        let ghost before = path_texts(r@);
        r.push(v[i].copy());
        assert(path_texts(r@) =~= before.push(v@[i as int]@));
        assert(path_texts(v@).take(i + 1) =~= path_texts(v@).take(i as int).push(v@[i as int]@));
        i = i + 1;
    }
    assert(path_texts(v@).take(v@.len() as int) =~= path_texts(v@));
    r
}

impl Argument {
    /// A copy of this argument.
    pub fn copy(&self) -> (r: Argument)
        ensures
            r@ == self@,
    {
        match self {
            Argument::CollectionText(x) => Argument::CollectionText(
                match x { Some(v) => Some(copy_texts(v)), None => None },
            ),
            Argument::PathPattern(x) => Argument::PathPattern(
                match x { Some(p) => Some(p.copy()), None => None },
            ),
            Argument::CollectionPathPattern(x) => Argument::CollectionPathPattern(
                match x { Some(v) => Some(copy_paths(v)), None => None },
            ),
            Argument::Text(x) => Argument::Text(
                match x { Some(s) => Some(copy_string(s)), None => None },
            ),
            Argument::BooleanFlag(x) => Argument::BooleanFlag(*x),
            Argument::Number(x) => Argument::Number(*x),
            Argument::Empty(x) => Argument::Empty(*x),
        }
    }

    /// The argument a default value stands for.
    pub fn from_default(value: DefaultValue) -> (r: Argument)
        ensures
            r@ == default_argument(value@),
    {
        match value {
            DefaultValue::Skip => Argument::Empty(Some(())),
            DefaultValue::Default(x) => x,
            DefaultValue::Mandatory => Argument::Empty(None),
        }
    }

    /// A text argument holding `value`.
    pub fn from_text(value: String) -> (r: Argument)
        ensures
            r@ == ArgumentView::Text(Some(value@)),
    {
        Argument::Text(Some(value))
    }

    /// A path argument holding `value`.
    pub fn from_path(value: PathText) -> (r: Argument)
        ensures
            r@ == ArgumentView::PathPattern(Some(value@)),
    {
        Argument::PathPattern(Some(value))
    }

    /// A text argument holding a copy of a constant text.
    pub fn from_static(value: &'static str) -> (r: Argument)
        ensures
            r@ == ArgumentView::Text(Some(value@)),
    {
        Argument::Text(Some(value.to_owned()))
    }
}

impl DefaultValue {
    /// A copy of this default.
    pub fn copy(&self) -> (r: DefaultValue)
        ensures
            r@ == self@,
    {
        match self {
            DefaultValue::Mandatory => DefaultValue::Mandatory,
            DefaultValue::Skip => DefaultValue::Skip,
            DefaultValue::Default(a) => DefaultValue::Default(a.copy()),
        }
    }
}

impl Entry {
    /// A copy of this entry.
    pub fn copy(&self) -> (r: Entry)
        ensures
            r@ == self@,
    {
        Entry {
            defaults_to: self.defaults_to.copy(),
            format: self.format,
            target_name: self.target_name.copy(),
            target_type: self.target_type.copy(),
        }
    }

    /// An entry that is left out of the command line.
    pub fn ignore() -> (e: Entry)
        ensures
            e@ == (EntryView {
                defaults_to: DefaultValueView::Skip,
                format: (FormatterView::Default, FormatterView::Default),
                target_name: NameView::Undefined,
                target_type: ArgumentView::Empty(None),
            }),
    {
        Entry {
            defaults_to: DefaultValue::Skip,
            format: (Formatter::Default, Formatter::Default),
            target_name: Name::Undefined,
            target_type: Argument::Empty(None),
        }
    }

    /// A boolean flag with the given name, left out unless it is set.
    pub fn bool(name: Name) -> (e: Entry)
        ensures
            e@ == (EntryView {
                defaults_to: DefaultValueView::Skip,
                format: (FormatterView::Default, FormatterView::Default),
                target_name: name@,
                target_type: ArgumentView::BooleanFlag(None),
            }),
    {
        Entry {
            defaults_to: DefaultValue::Skip,
            format: (Formatter::Default, Formatter::Default),
            target_name: name,
            target_type: Argument::BooleanFlag(None),
        }
    }
}


/// Turning a raw value into an argument, or formatting a list of words.
pub trait Transform<T>: Sized {
    /// Whether `value` can be put into `self` (where it cannot, the
    /// conversion is not supported).
    spec fn accepts(&self, value: &T) -> bool;

    /// How `new` relates to `old` once `value` is put in.
    spec fn transformed(old: Self, new: Self, value: &T) -> bool;

    fn transform(&mut self, value: &T)
        requires
            old(self).accepts(value),
        ensures
            Self::transformed(*old(self), *final(self), value),
    ;
}

/// Producing the command-line words of a filled-in argument.
pub trait Generate: Sized {
    /// Whether words can be produced (a mandatory value may be missing).
    spec fn generate_ok(&self) -> bool;

    /// The words produced.
    spec fn generated(&self) -> Seq<Seq<char>>;

    /// A vector, and not an option, because of collection arguments.
    fn generate(self) -> (r: Vec<String>)
        requires
            self.generate_ok(),
        ensures
            texts(r@) == self.generated(),
    ;
}

/// Values that turn into a list of command-line words.
trait Vectorize: Sized {
    spec fn words(&self) -> Seq<Seq<char>>;

    fn vec(&self) -> (r: Vec<String>)
        ensures
            texts(r@) == self.words(),
    ;
}

/// Filling an empty entry with a raw value.
pub trait Transformable<U>: Sized {
    /// Whether `with` can fill `self`.
    spec fn fill_ok(&self, with: &U) -> bool;

    /// How `new` relates to `old` once filled with `with`.
    spec fn filled(old: Self, new: Self, with: &U) -> bool;

    /// Takes an empty entry and fills it.
    fn fill(&mut self, with: &U)
        requires
            old(self).fill_ok(with),
        ensures
            Self::filled(*old(self), *final(self), with),
    ;
}

/// The words of a sequence of vectorizable values, in order.
spec fn words_of<T: Vectorize>(v: Seq<T>) -> Seq<Seq<char>>
    decreases v.len(),
{
    if v.len() == 0 {
        Seq::empty()
    } else {
        words_of(v.drop_last()) + v.last().words()
    }
}

impl<T: Vectorize> Vectorize for Vec<T> {
    spec fn words(&self) -> Seq<Seq<char>> {
        words_of(self@)
    }

    fn vec(&self) -> (r: Vec<String>) {
        let mut r: Vec<String> = Vec::new();
        let mut i: usize = 0;
        while i < self.len()
            invariant
                i <= self@.len(),
                texts(r@) == words_of(self@.take(i as int)),
            decreases self@.len() - i,
        {
            let ghost before = r@;
            let mut more = self[i].vec();
            let ghost added = more@;
            r.append(&mut more);
            assert(self@.take(i + 1).drop_last() =~= self@.take(i as int));
            assert(texts(r@) =~= texts(before) + texts(added));
            i = i + 1;
        }
        assert(self@.take(self@.len() as int) =~= self@);
        r
    }
}

impl Vectorize for String {
    spec fn words(&self) -> Seq<Seq<char>> {
        seq![self@]
    }

    fn vec(&self) -> (r: Vec<String>) {
        let r = vec![copy_string(self)];
        assert(texts(r@) =~= seq![self@]);
        r
    }
}

impl Vectorize for PathText {
    spec fn words(&self) -> Seq<Seq<char>> {
        seq![self@]
    }

    fn vec(&self) -> (r: Vec<String>) {
        let r = vec![copy_string(&self.text)];
        assert(texts(r@) =~= seq![self@]);
        r
    }
}

impl Vectorize for isize {
    spec fn words(&self) -> Seq<Seq<char>> {
        Seq::empty()
    }

    fn vec(&self) -> (r: Vec<String>) {
        let r: Vec<String> = Vec::new();
        assert(texts(r@) =~= Seq::<Seq<char>>::empty());
        r
    }
}

impl Vectorize for () {
    spec fn words(&self) -> Seq<Seq<char>> {
        Seq::empty()
    }

    fn vec(&self) -> (r: Vec<String>) {
        let r: Vec<String> = Vec::new();
        assert(texts(r@) =~= Seq::<Seq<char>>::empty());
        r
    }
}

proof fn lemma_words_of_texts(v: Seq<String>)
    ensures
        words_of(v) == texts(v),
    decreases v.len(),
{
    if v.len() > 0 {
        lemma_words_of_texts(v.drop_last());
        assert(texts(v) =~= texts(v.drop_last()) + seq![v.last()@]);
    } else {
        assert(texts(v) =~= Seq::<Seq<char>>::empty());
    }
}

proof fn lemma_words_of_paths(v: Seq<PathText>)
    ensures
        words_of(v) == path_texts(v),
    decreases v.len(),
{
    if v.len() > 0 {
        lemma_words_of_paths(v.drop_last());
        assert(path_texts(v) =~= path_texts(v.drop_last()) + seq![v.last()@]);
    } else {
        assert(path_texts(v) =~= Seq::<Seq<char>>::empty());
    }
}

/// The empty list of words.
fn no_words() -> (r: Vec<String>)
    ensures
        texts(r@) == Seq::<Seq<char>>::empty(),
{
    let r: Vec<String> = Vec::new();
    assert(texts(r@) =~= Seq::<Seq<char>>::empty());
    r
}

/// The words of an argument whose value is there.
fn present_words(a: Argument) -> (r: Vec<String>)
    requires
        present_values(a@) is Some,
    ensures
        texts(r@) == present_values(a@).unwrap(),
{
    match a {
        Argument::BooleanFlag(x) => match x {
            Some(true) => {
                let r = vec![String::new()];
                assert(texts(r@) =~= seq![Seq::<char>::empty()]);
                r
            },
            _ => no_words(),
        },
        Argument::Text(Some(s)) => s.vec(),
        Argument::PathPattern(Some(p)) => p.vec(),
        Argument::Empty(Some(u)) => u.vec(),
        Argument::CollectionText(Some(v)) => {
            proof { lemma_words_of_texts(v@); }
            v.vec()
        },
        Argument::CollectionPathPattern(Some(v)) => {
            proof { lemma_words_of_paths(v@); }
            v.vec()
        },
        Argument::Number(Some(n)) => n.vec(),
        _ => no_words(),
    }
}

/// The words of an optional value: its own when it is there, else those of
/// the default (none when the argument may be skipped).
fn optional_vectorization<T: Vectorize>(v: Option<T>, defaults: &Argument) -> (r: Vec<String>)
    requires
        v is None ==> fallback_values(defaults@) is Some,
    ensures
        texts(r@) == (match v {
            Some(n) => n.words(),
            None => fallback_values(defaults@).unwrap(),
        }),
{
    match v {
        Some(n) => n.vec(),
        None => match defaults {
            Argument::Empty(Some(_)) => no_words(),
            _ => present_words(defaults.copy()),
        },
    }
}

impl Generate for Entry {
    open spec fn generate_ok(&self) -> bool {
        entry_values(self@) is Some
    }

    open spec fn generated(&self) -> Seq<Seq<char>> {
        entry_values(self@).unwrap()
    }

    fn generate(self) -> (r: Vec<String>) {
        let defaults = Argument::from_default(self.defaults_to);
        match self.target_type {
            Argument::BooleanFlag(x) => present_words(Argument::BooleanFlag(x)),
            Argument::Text(x) => optional_vectorization(x, &defaults),
            Argument::PathPattern(x) => optional_vectorization(x, &defaults),
            Argument::Empty(x) => optional_vectorization(x, &defaults),
            Argument::CollectionText(x) => {
                proof {
                    if x is Some {
                        lemma_words_of_texts(x.unwrap()@);
                    }
                }
                optional_vectorization(x, &defaults)
            },
            Argument::CollectionPathPattern(x) => {
                proof {
                    if x is Some {
                        lemma_words_of_paths(x.unwrap()@);
                    }
                }
                optional_vectorization(x, &defaults)
            },
            Argument::Number(x) => optional_vectorization(x, &defaults),
        }
    }
}


/// The text of a boolean (`true` or `false`).
pub open spec fn bool_text(b: bool) -> Seq<char> {
    if b { seq!['t', 'r', 'u', 'e'] } else { seq!['f', 'a', 'l', 's', 'e'] }
}

fn bool_string(b: bool) -> (s: String)
    ensures
        s@ == bool_text(b),
{
    if b {
        proof { reveal_strlit("true"); }
        "true".to_owned()
    } else {
        proof { reveal_strlit("false"); }
        "false".to_owned()
    }
}

/// The view of an optional path.
pub open spec fn optional_path(p: Option<PathText>) -> Option<Seq<char>> {
    match p { Some(x) => Some(x@), None => None }
}

/// The view of an optional text.
pub open spec fn optional_text(p: Option<String>) -> Option<Seq<char>> {
    match p { Some(x) => Some(x@), None => None }
}

/// An argument with an optional text put in.
pub open spec fn put_optional_text(a: ArgumentView, v: Option<Seq<char>>) -> ArgumentView {
    match a {
        ArgumentView::Text(_) => ArgumentView::Text(v),
        _ => ArgumentView::Empty(Some(())),
    }
}

/// An argument with an optional path put in.
pub open spec fn put_optional_path(a: ArgumentView, v: Option<Seq<char>>) -> ArgumentView {
    match a {
        ArgumentView::PathPattern(_) => ArgumentView::PathPattern(v),
        ArgumentView::Text(_) => ArgumentView::Text(v),
        _ => ArgumentView::Empty(Some(())),
    }
}

/// An argument with a boolean put in.
pub open spec fn put_bool(a: ArgumentView, b: bool) -> ArgumentView {
    match a {
        ArgumentView::BooleanFlag(_) => ArgumentView::BooleanFlag(Some(b)),
        ArgumentView::Text(_) => ArgumentView::Text(Some(bool_text(b))),
        _ => ArgumentView::Empty(Some(())),
    }
}

/// An argument with a collection of texts put in.
pub open spec fn put_texts(a: ArgumentView, v: Seq<Seq<char>>) -> ArgumentView {
    match a {
        ArgumentView::CollectionText(_) => ArgumentView::CollectionText(Some(v)),
        _ => ArgumentView::Empty(Some(())),
    }
}

/// An entry once filled: its name cleaned up and its argument replaced.
pub open spec fn fill_view(e: EntryView, t: ArgumentView) -> EntryView {
    EntryView {
        defaults_to: e.defaults_to,
        format: e.format,
        target_name: cleaned(e.target_name),
        target_type: t,
    }
}

impl Transform<String> for Argument {
    open spec fn accepts(&self, value: &String) -> bool {
        self@ is Text || self@ is Empty
    }

    open spec fn transformed(old: Self, new: Self, value: &String) -> bool {
        new@ == (match old@ {
            ArgumentView::Text(_) => ArgumentView::Text(Some(value@)),
            _ => ArgumentView::Empty(Some(())),
        })
    }

    fn transform(&mut self, value: &String) {
        match self {
            Argument::Text(x) => *x = Some(copy_string(value)),
            _ => *self = Argument::Empty(Some(())),
        }
    }
}

impl Transform<PathText> for Argument {
    open spec fn accepts(&self, value: &PathText) -> bool {
        self@ is PathPattern || self@ is Text || self@ is Empty
    }

    open spec fn transformed(old: Self, new: Self, value: &PathText) -> bool {
        new@ == (match old@ {
            ArgumentView::PathPattern(_) => ArgumentView::PathPattern(Some(value@)),
            ArgumentView::Text(_) => ArgumentView::Text(Some(value@)),
            _ => ArgumentView::Empty(Some(())),
        })
    }

    fn transform(&mut self, value: &PathText) {
        match self {
            Argument::PathPattern(x) => *x = Some(value.copy()),
            Argument::Text(x) => *x = Some(copy_string(&value.text)),
            _ => *self = Argument::Empty(Some(())),
        }
    }
}

impl Transform<bool> for Argument {
    open spec fn accepts(&self, value: &bool) -> bool {
        self@ is BooleanFlag || self@ is Text || self@ is Empty
    }

    open spec fn transformed(old: Self, new: Self, value: &bool) -> bool {
        new@ == put_bool(old@, *value)
    }

    fn transform(&mut self, value: &bool) {
        match self {
            Argument::BooleanFlag(x) => *x = Some(*value),
            Argument::Text(x) => *x = Some(bool_string(*value)),
            _ => *self = Argument::Empty(Some(())),
        }
    }
}

impl Transform<Option<PathText>> for Argument {
    open spec fn accepts(&self, value: &Option<PathText>) -> bool {
        self@ is PathPattern || self@ is Text || self@ is Empty
    }

    open spec fn transformed(old: Self, new: Self, value: &Option<PathText>) -> bool {
        new@ == put_optional_path(old@, optional_path(*value))
    }

    fn transform(&mut self, value: &Option<PathText>) {
        match self {
            Argument::PathPattern(x) => match value {
                Some(p) => *x = Some(p.copy()),
                None => *x = None,
            },
            Argument::Text(x) => match value {
                Some(p) => *x = Some(copy_string(&p.text)),
                None => *x = None,
            },
            _ => *self = Argument::Empty(Some(())),
        }
    }
}

impl Transform<Option<String>> for Argument {
    open spec fn accepts(&self, value: &Option<String>) -> bool {
        self@ is Text || self@ is Empty
    }

    open spec fn transformed(old: Self, new: Self, value: &Option<String>) -> bool {
        new@ == put_optional_text(old@, optional_text(*value))
    }

    fn transform(&mut self, value: &Option<String>) {
        match self {
            Argument::Text(x) => match value {
                Some(p) => *x = Some(copy_string(p)),
                None => *x = None,
            },
            _ => *self = Argument::Empty(Some(())),
        }
    }
}

impl Transform<Vec<String>> for Argument {
    open spec fn accepts(&self, value: &Vec<String>) -> bool {
        self@ is CollectionText || self@ is Empty
    }

    open spec fn transformed(old: Self, new: Self, value: &Vec<String>) -> bool {
        new@ == put_texts(old@, texts(value@))
    }

    fn transform(&mut self, value: &Vec<String>) {
        match self {
            Argument::CollectionText(x) => *x = Some(copy_texts(value)),
            _ => *self = Argument::Empty(Some(())),
        }
    }
}

/// The texts of a vector of paths.
fn path_strings(v: &Vec<PathText>) -> (r: Vec<String>)
    ensures
        texts(r@) == path_texts(v@),
{
    let mut r: Vec<String> = Vec::new();
    let mut i: usize = 0;
    while i < v.len()
        invariant
            i <= v@.len(),
            texts(r@) == path_texts(v@).take(i as int),
        decreases v@.len() - i,
    {
        let ghost before = texts(r@);
        r.push(copy_string(&v[i].text));
        assert(texts(r@) =~= before.push(v@[i as int]@));
        assert(path_texts(v@).take(i + 1) =~= path_texts(v@).take(i as int).push(v@[i as int]@));
        i = i + 1;
    }
    assert(path_texts(v@).take(v@.len() as int) =~= path_texts(v@));
    r
}

impl Transform<Vec<PathText>> for Argument {
    open spec fn accepts(&self, value: &Vec<PathText>) -> bool {
        self@ is CollectionPathPattern || self@ is CollectionText || self@ is Empty
    }

    open spec fn transformed(old: Self, new: Self, value: &Vec<PathText>) -> bool {
        new@ == (match old@ {
            ArgumentView::CollectionPathPattern(_) => ArgumentView::CollectionPathPattern(
                Some(path_texts(value@)),
            ),
            ArgumentView::CollectionText(_) => ArgumentView::CollectionText(Some(path_texts(value@))),
            _ => ArgumentView::Empty(Some(())),
        })
    }

    fn transform(&mut self, value: &Vec<PathText>) {
        match self {
            Argument::CollectionPathPattern(x) => *x = Some(copy_paths(value)),
            Argument::CollectionText(x) => *x = Some(path_strings(value)),
            _ => *self = Argument::Empty(Some(())),
        }
    }
}

impl Transform<Formatter> for Vec<String> {
    open spec fn accepts(&self, value: &Formatter) -> bool {
        true
    }

    open spec fn transformed(old: Self, new: Self, value: &Formatter) -> bool {
        texts(new@) == prefixed(value@, texts(old@))
    }

    fn transform(&mut self, value: &Formatter) {
        match value {
            Formatter::Default => {},
            Formatter::Prefix(p) => {
                let ghost before = texts(self@);
                assert(value@ == FormatterView::Prefix((*p)@));
                let mut out: Vec<String> = Vec::new();
                let mut i: usize = 0;
                while i < self.len()
                    invariant
                        i <= self@.len(),
                        before == texts(self@),
                        value@ == FormatterView::Prefix((*p)@),
                        texts(out@) == prefixed(value@, before).take(i as int),
                    decreases self@.len() - i,
                {
                    let ghost prev = texts(out@);
                    assert(prefixed(value@, before).len() == before.len());
                    assert(prefixed(value@, before)[i as int] == (*p)@ + before[i as int]);
                    let mut w: String = (*p).to_owned();
                    w.append(self[i].as_str());
                    out.push(w);
                    assert(texts(out@) =~= prev.push(w@));
                    assert(prefixed(value@, before).take(i + 1) =~= prefixed(value@, before).take(
                        i as int,
                    ).push((*p)@ + before[i as int]));
                    i = i + 1;
                }
                assert(prefixed(value@, before).take(self@.len() as int) =~= prefixed(value@, before));
                *self = out;
            },
        }
    }
}

impl Transform<Vec<Entry>> for Vec<String> {
    open spec fn accepts(&self, value: &Vec<Entry>) -> bool {
        forall|i: int| 0 <= i < value@.len() ==> render_ok(#[trigger] value@[i]@)
    }

    open spec fn transformed(old: Self, new: Self, value: &Vec<Entry>) -> bool {
        texts(new@) == texts(old@) + render_all(entry_views(value@))
    }

    fn transform(&mut self, value: &Vec<Entry>) {
        let mut c: Vec<String> = Vec::new();
        let mut k: usize = 0;
        while k < value.len()
            invariant
                k <= value@.len(),
                forall|i: int| 0 <= i < value@.len() ==> render_ok(#[trigger] value@[i]@),
                texts(c@) == render_all(entry_views(value@).take(k as int)),
            decreases value@.len() - k,
        {
            let entry = &value[k];
            assert(render_ok(value@[k as int]@));
            let mut e = entry.copy().generate();
            e.transform(&entry.format.1);
            assert(texts(e@).len() == entry_values(entry@).unwrap().len());
            entry.target_name.name(&mut e);
            let ghost before = texts(c@);
            let ghost added = texts(e@);
            c.append(&mut e);
            assert(texts(c@) =~= before + added);
            assert(entry_views(value@).take(k + 1).drop_last() =~= entry_views(value@).take(k as int));
            proof { lemma_last_entry_view(value@, k as int); }
            k = k + 1;
        }
        assert(entry_views(value@).take(value@.len() as int) =~= entry_views(value@));
        let ghost mine = texts(self@);
        let ghost added = texts(c@);
        self.append(&mut c);
        assert(texts(self@) =~= mine + added);
    }
}

proof fn lemma_last_entry_view(v: Seq<Entry>, k: int)
    requires
        0 <= k < v.len(),
    ensures
        entry_views(v).take(k + 1).last() == v[k]@,
{
}

impl<U> Transformable<U> for Entry where Argument: Transform<U> {
    open spec fn fill_ok(&self, with: &U) -> bool {
        self.target_type.accepts(with)
    }

    open spec fn filled(old: Self, new: Self, with: &U) -> bool {
        &&& new.target_name@ == cleaned(old.target_name@)
        &&& new.defaults_to@ == old.defaults_to@
        &&& new.format == old.format
        &&& <Argument as Transform<U>>::transformed(old.target_type, new.target_type, with)
    }

    fn fill(&mut self, with: &U) {
        self.target_name.cleanup();
        self.target_type.transform(with);
    }
}


/// The groups of an [`EntryMap`]: each name with the entries filed under it.
pub type GroupsView = Seq<(NameView, Seq<EntryView>)>;

/// Whether the names of the groups are strictly increasing.
pub open spec fn keys_sorted(g: GroupsView) -> bool {
    forall|i: int, j: int| 0 <= i < j < g.len() ==> name_order(#[trigger] g[i].0, #[trigger] g[j].0) < 0
}

/// Whether a group's name is the same name as `k`.
pub open spec fn has_key(g: GroupsView, k: NameView) -> bool {
    exists|i: int| 0 <= i < g.len() && name_order(#[trigger] g[i].0, k) == 0
}

/// The index of the group named `k`.
pub open spec fn key_index(g: GroupsView, k: NameView) -> int {
    choose|i: int| 0 <= i < g.len() && name_order(#[trigger] g[i].0, k) == 0
}

/// Whether the names before `p` are smaller than `k` and those from `p` on
/// are larger.
pub open spec fn splits_at(g: GroupsView, k: NameView, p: int) -> bool {
    &&& 0 <= p <= g.len()
    &&& forall|i: int| 0 <= i < p ==> name_order(#[trigger] g[i].0, k) < 0
    &&& forall|i: int| p <= i < g.len() ==> name_order(#[trigger] g[i].0, k) > 0
}

/// Where a new name goes: after every smaller name, before every larger one.
pub open spec fn insert_position(g: GroupsView, k: NameView) -> int {
    choose|p: int| #[trigger] splits_at(g, k, p)
}

/// The groups once `e` is filed under `k`: appended to the group of that
/// name if there is one, else in a new group at its place in name order.
pub open spec fn file_under(g: GroupsView, k: NameView, e: EntryView) -> GroupsView {
    if has_key(g, k) {
        let i = key_index(g, k);
        g.update(i, (g[i].0, g[i].1.push(e)))
    } else {
        g.insert(insert_position(g, k), (k, seq![e]))
    }
}

/// Entries filed by name, names in increasing order: the ordered bundle of
/// arguments that becomes a command line. `Name` has `PartialOrd` but no
/// `Ord` (its total order is `name_order`, given by `Name::compare`), so a
/// `BTreeMap` cannot be keyed by it; the bundle keeps its groups in a vector
/// sorted by that order instead, as its type invariant states.
pub struct EntryMap {
    groups: Vec<(Name, Vec<Entry>)>,
}

/// The view of stored groups.
pub open spec fn groups_view(g: Seq<(Name, Vec<Entry>)>) -> GroupsView {
    g.map_values(|x: (Name, Vec<Entry>)| (x.0@, entry_views(x.1@)))
}

impl View for EntryMap {
    type V = GroupsView;

    closed spec fn view(&self) -> GroupsView {
        groups_view(self.groups@)
    }
}

impl EntryMap {
    #[verifier::type_invariant]
    spec fn sorted(self) -> bool {
        keys_sorted(groups_view(self.groups@))
    }

    /// An empty bundle.
    pub fn new() -> (m: EntryMap)
        ensures
            m@ == GroupsView::empty(),
    {
        let m = EntryMap { groups: Vec::new() };
        assert(m@ =~= GroupsView::empty());
        m
    }

    /// The number of groups; their names are strictly increasing.
    pub fn len(&self) -> (n: usize)
        ensures
            n == self@.len(),
            keys_sorted(self@),
    {
        proof {
            use_type_invariant(self);
        }
        self.groups.len()
    }

    /// The name and entries of group `i`.
    pub fn group(&self, i: usize) -> (g: &(Name, Vec<Entry>))
        requires
            i < self@.len(),
        ensures
            g.0@ == self@[i as int].0,
            entry_views(g.1@) == self@[i as int].1,
    {
        &self.groups[i]
    }

    /// Whether every entry of every group can be written out (see
    /// `all_renderable`).
    pub fn ready(&self) -> (b: bool)
        ensures
            b == all_renderable(self@),
    {
        let n: usize = self.groups.len();
        let mut i: usize = 0;
        while i < n
            invariant
                i <= n,
                n == self@.len(),
                forall|a: int, b: int| 0 <= a < i && 0 <= b < self@[a].1.len() ==> render_ok(#[trigger] self@[a].1[b]),
            decreases n - i,
        {
            let group = &self.groups[i];
            let m: usize = group.1.len();
            let mut j: usize = 0;
            while j < m
                invariant
                    i < n,
                    n == self@.len(),
                    j <= m,
                    m == self@[i as int].1.len(),
                    group == &self.groups@[i as int],
                    forall|b: int| 0 <= b < j ==> render_ok(#[trigger] self@[i as int].1[b]),
                decreases m - j,
            {
                assert(self@[i as int].1[j as int] == group.1@[j as int]@);
                if !group.1[j].ready() {
                    return false;
                }
                j = j + 1;
            }
            i = i + 1;
        }
        true
    }

    /// Files `value` under `key` (see `file_under`).
    pub fn file(&mut self, key: Name, value: Entry)
        ensures
            final(self)@ == file_under(old(self)@, key@, value@),
            keys_sorted(final(self)@),
    {
        proof {
            use_type_invariant(&*self);
        }
        let mut groups: Vec<(Name, Vec<Entry>)> = Vec::new();
        std::mem::swap(&mut groups, &mut self.groups);
        let ghost g = groups_view(groups@);
        let n: usize = groups.len();
        let mut i: usize = 0;
        while i < n && groups[i].0.order(&key) < 0
            invariant
                n == groups@.len(),
                g == groups_view(groups@),
                keys_sorted(g),
                i <= n,
                forall|j: int| 0 <= j < i ==> name_order(#[trigger] g[j].0, key@) < 0,
            decreases n - i,
        {
            i = i + 1;
        }
        if i < n && groups[i].0.equals(&key) {
            proof {
                assert(has_key(g, key@));
                let k = key_index(g, key@);
                if k != i as int {
                    lemma_name_order_antisymmetric(g[k].0, key@);
                    lemma_name_order_antisymmetric(g[i as int].0, key@);
                    if k < i {
                    } else {
                        assert(name_order(g[i as int].0, g[k].0) < 0);
                        lemma_name_order_transitive(g[i as int].0, g[k].0, key@);
                        lemma_name_order_transitive(g[k].0, key@, g[i as int].0);
                    }
                }
            }
            let ghost before = groups@;
            let ghost ev = value@;
            let ghost val = value;
            let group = &mut groups[i];
            group.1.push(value);
            proof {
                assert(groups@[i as int].1@ == before[i as int].1@.push(val));
                assert(entry_views(groups@[i as int].1@) =~= entry_views(before[i as int].1@).push(ev));
                assert(groups_view(groups@) =~= file_under(g, key@, ev));
            }
        } else {
            proof {
                lemma_name_order_antisymmetric(key@, key@);
                if i < n {
                    lemma_name_order_antisymmetric(g[i as int].0, key@);
                    assert(name_order(g[i as int].0, key@) > 0);
                }
                assert forall|j: int| i <= j < n implies name_order(#[trigger] g[j].0, key@) > 0 by {
                    if j > i {
                        lemma_name_order_antisymmetric(g[i as int].0, key@);
                        lemma_name_order_transitive(key@, g[i as int].0, g[j].0);
                        lemma_name_order_antisymmetric(g[j].0, key@);
                    }
                }
                assert(!has_key(g, key@)) by {
                    if has_key(g, key@) {
                        let k = key_index(g, key@);
                        if k < i {
                        } else {
                        }
                    }
                }
                assert(splits_at(g, key@, i as int));
                let p = insert_position(g, key@);
                assert(p == i as int) by {
                    if p < i {
                        assert(name_order(g[p].0, key@) > 0);
                    } else if p > i {
                        assert(name_order(g[i as int].0, key@) < 0);
                    }
                }
            }
            let ghost kv = key@;
            let ghost ev = value@;
            let mut fresh: Vec<Entry> = Vec::new();
            fresh.push(value);
            assert(entry_views(fresh@) =~= seq![ev]);
            groups.insert(i, (key, fresh));
            proof {
                let ng = groups_view(groups@);
                assert(ng =~= g.insert(i as int, (kv, seq![ev])));
                assert forall|a: int, b: int| 0 <= a < b < ng.len() implies name_order(
                    #[trigger] ng[a].0,
                    #[trigger] ng[b].0,
                ) < 0 by {
                    if b == i {
                    } else if a == i {
                        lemma_name_order_antisymmetric(g[b - 1].0, kv);
                    } else if a < i && b > i {
                        lemma_name_order_antisymmetric(g[b - 1].0, kv);
                        lemma_name_order_transitive(g[a].0, kv, g[b - 1].0);
                    } else if a > i {
                        assert(ng[a] == g[a - 1]);
                        assert(ng[b] == g[b - 1]);
                    }
                }
            }
        }
        self.groups = groups;
    }
}


/// Filing values into a bundle by key.
pub trait Expand: Sized {
    type Key;
    type Item;

    /// How `new` relates to `old` once `value` is filed under `key`.
    spec fn expanded(old: Self, new: Self, key: Self::Key, value: Self::Item) -> bool;

    fn expand(&mut self, key: Self::Key, value: Self::Item)
        ensures
            Self::expanded(*old(self), *final(self), key, value),
    ;

    /// The key that an item carries itself.
    spec fn key_of(value: Self::Item) -> Self::Key;

    /// Files an item under the key it carries itself.
    fn expand_field(&mut self, value: &Self::Item)
        ensures
            Self::expanded(*old(self), *final(self), Self::key_of(*value), *value),
    ;
}

impl Expand for EntryMap {
    type Key = Name;
    type Item = Entry;

    open spec fn expanded(old: Self, new: Self, key: Name, value: Entry) -> bool {
        &&& new@ == file_under(old@, key@, value@)
        &&& keys_sorted(new@)
    }

    open spec fn key_of(value: Entry) -> Name {
        value.target_name
    }

    fn expand(&mut self, key: Name, value: Entry) {
        self.file(key, value);
    }

    fn expand_field(&mut self, value: &Entry)
        ensures
            final(self)@ == file_under(old(self)@, value.target_name@, value@),
            keys_sorted(final(self)@),
    {
        self.expand(value.target_name.copy(), value.copy());
    }
}

/// A command: the program and its arguments.
pub type Cmd = (String, Vec<String>);

/// Turning raw command-line data into a command for a search tool.
pub trait Convertible<T>: Sized {
    /// Whether `with` can populate the entries of `self`.
    spec fn populate_ok(&self, with: &T) -> bool;

    /// Whether a bundle can be turned into a command (every mandatory value
    /// is there).
    spec fn generate_ok(&self, with: &EntryMap) -> bool;

    /// How the entries `new` and the bundle `r` relate to the entries `old`
    /// once populated with `with`.
    spec fn populated(old: Self, new: Self, with: &T, r: EntryMap) -> bool;

    /// The program and the words of the command that a bundle becomes.
    spec fn command_of(&self, with: EntryMap) -> (Seq<char>, Seq<Seq<char>>);

    /// Populates the entries with the raw data and returns the ordered bundle.
    fn populate(&mut self, with: &T) -> (r: EntryMap)
        requires
            old(self).populate_ok(with),
        ensures
            Self::populated(*old(self), *final(self), with, r),
    ;

    /// Turns a bundle into a command.
    fn generate(&self, with: EntryMap) -> (r: Cmd)
        requires
            self.generate_ok(&with),
        ensures
            (r.0@, texts(r.1@)) == self.command_of(with),
    ;
}

/// What `Name::from_capture` gives for a captured text (as UTF-8 bytes) and
/// the name of the group that captured it: a position after the first byte
/// (group `d1`), the second character as a short name (group `d2`), the
/// text after the first two bytes as a long name (group `d3`); no name for
/// any other group.
pub open spec fn capture_name(bytes: Seq<u8>, group: Seq<char>) -> Option<NameView> {
    let chars = decode_utf8(bytes);
    if group == seq!['d', '1'] {
        match parse_unsigned(decode_utf8(bytes.subrange(1, bytes.len() as int)), 255) {
            Some(v) => Some(NameView::Blank(v as u8)),
            None => None,
        }
    } else if group == seq!['d', '2'] {
        Some(NameView::Short(chars[1]))
    } else if group == seq!['d', '3'] {
        Some(NameView::Long(decode_utf8(bytes.subrange(2, bytes.len() as int))))
    } else {
        None
    }
}

/// Whether `Name::from_capture` can read a capture: the text splits where
/// the group says and, for a position, holds a number below 256.
pub open spec fn capture_readable(bytes: Seq<u8>, group: Seq<char>) -> bool {
    &&& group == seq!['d', '1'] ==> is_char_boundary(bytes, 1) && parse_unsigned(
        decode_utf8(bytes.subrange(1, bytes.len() as int)),
        255,
    ) is Some
    &&& group == seq!['d', '2'] ==> decode_utf8(bytes).len() >= 2
    &&& group == seq!['d', '3'] ==> is_char_boundary(bytes, 2)
}

/// Whether a text is the given two-character group name.
fn is_group(group: &str, a: char, b: char) -> (r: bool)
    ensures
        r == (group@ == seq![a, b]),
{
    let n: usize = group.unicode_len();
    let r = n == 2 && group.get_char(0) == a && group.get_char(1) == b;
    proof {
        if r {
            assert(group@ =~= seq![a, b]);
        }
    }
    r
}

impl Name {
    /// Reads a name from a captured text and the name of the group that
    /// captured it.
    pub fn from_capture(text: &str, group: &str) -> (r: Result<Name, Error>)
        requires
            capture_readable(text.spec_bytes(), group@),
        ensures
            (match r {
                Ok(n) => capture_name(text.spec_bytes(), group@) == Some(n@),
                Err(_) => capture_name(text.spec_bytes(), group@) is None,
            }),
    {
        broadcast use vstd::utf8::encode_utf8_valid_utf8, vstd::utf8::encode_utf8_decode_utf8;

        if is_group(group, 'd', '1') {
            let (_head, rest) = text.split_at(1);
            assert(rest.spec_bytes() =~= text.spec_bytes().subrange(1, text.spec_bytes().len() as int));
            assert(decode_utf8(rest.spec_bytes()) == rest@);
            match parse_bounded(rest, 255) {
                Some(v) => Ok(Name::Blank(v as u8)),
                None => Err(Error {}),
            }
        } else if is_group(group, 'd', '2') {
            Ok(Name::Short(text.get_char(1)))
        } else if is_group(group, 'd', '3') {
            let (_head, rest) = text.split_at(2);
            assert(rest.spec_bytes() =~= text.spec_bytes().subrange(2, text.spec_bytes().len() as int));
            assert(decode_utf8(rest.spec_bytes()) == rest@);
            Ok(Name::Long(rest.to_owned()))
        } else {
            Err(Error {})
        }
    }
}

/// The regular expression of an entry's textual format: the target name
/// (`#` and up to three digits, `-` and a letter, or `--` and letters), the
/// default (`!`, letters and dashes in angle brackets, or nothing), the
/// source in braces, and the type in square brackets or nothing.
pub open spec fn entry_format_pattern() -> Seq<char> {
    "((?P<n1>#\\d{1,3})|(?P<n2>-\\pL)|(?P<n3>--\\pL+))((?P<d1>!)|(?P<d2><[\\pL-]*>)|(?P<d3>))(?P<s>\\{\\pL+\\})((?P<t1>\\[\\pL+\\])|(?P<t2>))"@
}

/// The groups of the format that an entry is read from, in this order: the
/// three kinds of name, the two kinds of default, the type.
pub open spec fn entry_format_groups() -> Seq<Seq<char>> {
    seq!["n1"@, "n2"@, "n3"@, "d1"@, "d2"@, "t1"@]
}

/// The text between the first and the last character.
pub open spec fn bracketed(t: Seq<char>) -> Seq<char> {
    t.subrange(1, t.len() - 1)
}

/// The target name of a read format: `#i` is position `i`, `-c` the short
/// name `c`, `--s` the long name `s`.
pub open spec fn format_name(row: Seq<Option<Seq<char>>>) -> Option<NameView> {
    match row[0] {
        Some(t) => if t.len() >= 1 {
            match parse_unsigned(t.drop_first(), 255) {
                Some(v) => Some(NameView::Blank(v as u8)),
                None => None,
            }
        } else {
            None
        },
        None => match row[1] {
            Some(t) => if t.len() >= 2 { Some(NameView::Short(t[1])) } else { None },
            None => match row[2] {
                Some(t) => if t.len() >= 2 { Some(NameView::Long(t.subrange(2, t.len() as int))) } else { None },
                None => None,
            },
        },
    }
}

/// The default of a read format: `!` is mandatory, `<s>` defaults to the
/// text `s`, nothing may be skipped.
pub open spec fn format_default(row: Seq<Option<Seq<char>>>) -> Option<DefaultValueView> {
    if row[3] is Some {
        Some(DefaultValueView::Mandatory)
    } else {
        match row[4] {
            Some(t) => if t.len() >= 2 {
                Some(DefaultValueView::Default(ArgumentView::Text(Some(bracketed(t)))))
            } else {
                None
            },
            None => Some(DefaultValueView::Skip),
        }
    }
}

/// The type of a read format: `[str]` is a text, `[path]` a path, nothing a
/// boolean flag; any other type is not known.
pub open spec fn format_type(row: Seq<Option<Seq<char>>>) -> Option<ArgumentView> {
    match row[5] {
        None => Some(ArgumentView::BooleanFlag(None)),
        Some(t) => if t.len() >= 2 && bracketed(t) == "str"@ {
            Some(ArgumentView::Text(None))
        } else if t.len() >= 2 && bracketed(t) == "path"@ {
            Some(ArgumentView::PathPattern(None))
        } else {
            None
        },
    }
}

/// The entry that the groups of a match describe, with no formatting.
pub open spec fn entry_of_groups(row: Seq<Option<Seq<char>>>) -> Option<EntryView> {
    if row.len() != 6 {
        None
    } else {
        match (format_name(row), format_default(row), format_type(row)) {
            (Some(n), Some(d), Some(t)) => Some(
                EntryView {
                    defaults_to: d,
                    format: (FormatterView::Default, FormatterView::Default),
                    target_name: n,
                    target_type: t,
                },
            ),
            _ => None,
        }
    }
}

/// The entry that a textual format describes: that of the first match of
/// `entry_format_pattern` in it; `None` when there is none or it does not
/// describe an entry.
pub open spec fn entry_format_of(value: Seq<char>) -> Option<EntryView> {
    match named_captures(entry_format_pattern(), value, entry_format_groups()) {
        Some(rows) => if rows.len() > 0 { entry_of_groups(rows[0]) } else { None },
        None => None,
    }
}

/// The names of the groups that an entry is read from.
fn format_group_names() -> (v: Vec<String>)
    ensures
        texts(v@) == entry_format_groups(),
{
    let v = vec![
        "n1".to_owned(),
        "n2".to_owned(),
        "n3".to_owned(),
        "d1".to_owned(),
        "d2".to_owned(),
        "t1".to_owned(),
    ];
    assert(texts(v@) =~= entry_format_groups());
    v
}

/// The target name of a read format (see `format_name`).
fn read_format_name(row: &Vec<Option<String>>) -> (r: Option<Name>)
    requires
        row@.len() == 6,
    ensures
        (match r {
            Some(n) => format_name(optional_texts(row@)) == Some(n@),
            None => format_name(optional_texts(row@)) is None,
        }),
{
    let ghost g = optional_texts(row@);
    assert(g[0] == (match row@[0] { Some(s) => Some(s@), None => None::<Seq<char>> }));
    assert(g[1] == (match row@[1] { Some(s) => Some(s@), None => None::<Seq<char>> }));
    assert(g[2] == (match row@[2] { Some(s) => Some(s@), None => None::<Seq<char>> }));
    match &row[0] {
        Some(t) => {
            let n: usize = t.as_str().unicode_len();
            if n == 0 {
                return None;
            }
            let digits = t.as_str().substring_char(1, n);
            assert(digits@ =~= t@.drop_first());
            match parse_bounded(digits, 255) {
                Some(v) => Some(Name::Blank(v as u8)),
                None => None,
            }
        },
        None => match &row[1] {
            Some(t) => {
                if t.as_str().unicode_len() >= 2 {
                    Some(Name::Short(t.as_str().get_char(1)))
                } else {
                    None
                }
            },
            None => match &row[2] {
                Some(t) => {
                    let n: usize = t.as_str().unicode_len();
                    if n >= 2 {
                        Some(Name::Long(t.as_str().substring_char(2, n).to_owned()))
                    } else {
                        None
                    }
                },
                None => None,
            },
        },
    }
}

/// The text between the first and the last character of `t`.
fn bracketed_text(t: &str) -> (r: &str)
    requires
        t@.len() >= 2,
    ensures
        r@ == bracketed(t@),
{
    let n: usize = t.unicode_len();
    t.substring_char(1, n - 1)
}

/// The default of a read format (see `format_default`).
fn read_format_default(row: &Vec<Option<String>>) -> (r: Option<DefaultValue>)
    requires
        row@.len() == 6,
    ensures
        (match r {
            Some(d) => format_default(optional_texts(row@)) == Some(d@),
            None => format_default(optional_texts(row@)) is None,
        }),
{
    let ghost g = optional_texts(row@);
    assert(g[3] == (match row@[3] { Some(s) => Some(s@), None => None::<Seq<char>> }));
    assert(g[4] == (match row@[4] { Some(s) => Some(s@), None => None::<Seq<char>> }));
    if row[3].is_some() {
        return Some(DefaultValue::Mandatory);
    }
    match &row[4] {
        Some(t) => {
            if t.as_str().unicode_len() >= 2 {
                let inner = bracketed_text(t.as_str());
                Some(DefaultValue::Default(Argument::Text(Some(inner.to_owned()))))
            } else {
                None
            }
        },
        None => Some(DefaultValue::Skip),
    }
}

/// The type of a read format (see `format_type`).
fn read_format_type(row: &Vec<Option<String>>) -> (r: Option<Argument>)
    requires
        row@.len() == 6,
    ensures
        (match r {
            Some(a) => format_type(optional_texts(row@)) == Some(a@),
            None => format_type(optional_texts(row@)) is None,
        }),
{
    let ghost g = optional_texts(row@);
    assert(g[5] == (match row@[5] { Some(s) => Some(s@), None => None::<Seq<char>> }));
    match &row[5] {
        None => Some(Argument::BooleanFlag(None)),
        Some(t) => {
            if t.as_str().unicode_len() < 2 {
                return None;
            }
            let inner = bracketed_text(t.as_str());
            if same_text(inner, "str") {
                Some(Argument::Text(None))
            } else if same_text(inner, "path") {
                Some(Argument::PathPattern(None))
            } else {
                None
            }
        },
    }
}

/// The entry that the groups of a match describe (see `entry_of_groups`),
/// the groups given in the order of `entry_format_groups`.
pub fn entry_of_row(row: &Vec<Option<String>>) -> (r: Option<Entry>)
    ensures
        (match r {
            Some(e) => entry_of_groups(optional_texts(row@)) == Some(e@),
            None => entry_of_groups(optional_texts(row@)) is None,
        }),
{
    if row.len() != 6 {
        return None;
    }
    let name = match read_format_name(row) {
        Some(n) => n,
        None => {
            return None;
        },
    };
    let defaults_to = match read_format_default(row) {
        Some(d) => d,
        None => {
            return None;
        },
    };
    let target_type = match read_format_type(row) {
        Some(t) => t,
        None => {
            return None;
        },
    };
    Some(Entry {
        defaults_to,
        format: (Formatter::Default, Formatter::Default),
        target_name: name,
        target_type,
    })
}

impl Entry {
    /// Reads an entry from its textual format, `ndst`: the target name `n`
    /// (`#i` a position, `-c` a short name, `--s` a long name), the default
    /// `d` (`!` mandatory, `<s>` the text `s`, nothing: skipped), the source
    /// `s` in braces, and the type `t` (`[str]` a text, `[path]` a path,
    /// nothing: a boolean flag). Examples: `#1<->{path}[path]`,
    /// `-i{casei}`, `#0!{pattern}[str]`. See `entry_format_of`.
    pub fn from_format(value: &str) -> (r: Result<Entry, Error>)
        ensures
            (match r {
                Ok(e) => entry_format_of(value@) == Some(e@),
                Err(_) => entry_format_of(value@) is None,
            }),
    {
        let names = format_group_names();
        let rows = match captures_by_name(
            "((?P<n1>#\\d{1,3})|(?P<n2>-\\pL)|(?P<n3>--\\pL+))((?P<d1>!)|(?P<d2><[\\pL-]*>)|(?P<d3>))(?P<s>\\{\\pL+\\})((?P<t1>\\[\\pL+\\])|(?P<t2>))",
            value,
            &names,
        ) {
            Some(rows) => rows,
            None => {
                return Err(Error {});
            },
        };
        if rows.len() == 0 {
            return Err(Error {});
        }
        let row = &rows[0];
        assert(capture_rows(rows@)[0] == optional_texts(row@));
        match entry_of_row(row) {
            Some(e) => Ok(e),
            None => Err(Error {}),
        }
    }
}


/// Every entry of every group can be written out.
pub open spec fn all_renderable(g: GroupsView) -> bool {
    forall|i: int, j: int|
        0 <= i < g.len() && 0 <= j < g[i].1.len() ==> render_ok(#[trigger] g[i].1[j])
}

proof fn lemma_insert_position_exists(g: GroupsView, k: NameView)
    requires
        keys_sorted(g),
        !has_key(g, k),
    ensures
        exists|p: int| splits_at(g, k, p),
    decreases g.len(),
{
    if g.len() == 0 {
        assert(splits_at(g, k, 0));
    } else {
        let h = g.drop_last();
        assert(keys_sorted(h));
        assert(!has_key(h, k)) by {
            if has_key(h, k) {
                let i = key_index(h, k);
                assert(g[i] == h[i]);
            }
        }
        lemma_insert_position_exists(h, k);
        let q = choose|p: int| splits_at(h, k, p);
        let n = g.len() - 1;
        lemma_name_order_antisymmetric(g[n].0, k);
        if name_order(g[n].0, k) < 0 {
            assert forall|i: int| 0 <= i < g.len() implies name_order(#[trigger] g[i].0, k) < 0 by {
                if i < n {
                    lemma_name_order_transitive(g[i].0, g[n].0, k);
                }
            }
            assert(splits_at(g, k, g.len() as int));
        } else {
            assert(name_order(g[n].0, k) != 0);
            assert(splits_at(g, k, q)) by {
                assert forall|i: int| q <= i < g.len() implies name_order(#[trigger] g[i].0, k) > 0 by {
                    if i < n {
                        assert(g[i] == h[i]);
                    }
                }
                assert forall|i: int| 0 <= i < q implies name_order(#[trigger] g[i].0, k) < 0 by {
                    assert(g[i] == h[i]);
                }
            }
        }
    }
}

/// Whether entry `e` stands in some group of `g`.
pub open spec fn files_entry(g: GroupsView, e: EntryView) -> bool {
    exists|i: int, j: int| 0 <= i < g.len() && 0 <= j < g[i].1.len() && #[trigger] g[i].1[j] == e
}

/// Filing an entry into sorted groups keeps the names sorted, files the new
/// entry, and keeps every entry that was filed before.
pub proof fn lemma_file_under_keeps(g: GroupsView, k: NameView, e: EntryView)
    requires
        keys_sorted(g),
    ensures
        keys_sorted(file_under(g, k, e)),
        files_entry(file_under(g, k, e), e),
        forall|x: EntryView| files_entry(g, x) ==> files_entry(file_under(g, k, e), x),
{
    let f = file_under(g, k, e);
    if has_key(g, k) {
        let i = key_index(g, k);
        assert(0 <= i < g.len());
        assert(f[i].1[g[i].1.len() as int] == e);
        assert forall|x: EntryView| files_entry(g, x) implies files_entry(f, x) by {
            let (a, b) = choose|a: int, b: int| 0 <= a < g.len() && 0 <= b < g[a].1.len() && #[trigger] g[a].1[b] == x;
            assert(f[a].1[b] == x);
        }
    } else {
        lemma_insert_position_exists(g, k);
        let p = insert_position(g, k);
        assert(splits_at(g, k, p));
        assert(f =~= g.insert(p, (k, seq![e])));
        assert(f[p].1[0] == e);
        assert forall|a: int, b: int| 0 <= a < b < f.len() implies name_order(
            #[trigger] f[a].0,
            #[trigger] f[b].0,
        ) < 0 by {
            if b == p {
            } else if a == p {
                lemma_name_order_antisymmetric(g[b - 1].0, k);
            } else if a < p && b > p {
                lemma_name_order_antisymmetric(g[b - 1].0, k);
                lemma_name_order_transitive(g[a].0, k, g[b - 1].0);
            } else if a > p {
                assert(f[a] == g[a - 1]);
                assert(f[b] == g[b - 1]);
            }
        }
        assert forall|x: EntryView| files_entry(g, x) implies files_entry(f, x) by {
            let (a, b) = choose|a: int, b: int| 0 <= a < g.len() && 0 <= b < g[a].1.len() && #[trigger] g[a].1[b] == x;
            if a < p {
                assert(f[a] == g[a]);
                assert(f[a].1[b] == x);
            } else {
                assert(f[a + 1] == g[a]);
                assert(f[a + 1].1[b] == x);
            }
        }
    }
}

/// Every word of an entry's rendering is among the words of a sequence of
/// entries that holds it.
pub proof fn lemma_render_all_holds(es: Seq<EntryView>, j: int, w: Seq<char>)
    requires
        0 <= j < es.len(),
        render_entry(es[j]).contains(w),
    ensures
        render_all(es).contains(w),
    decreases es.len(),
{
    let head = render_all(es.drop_last());
    let tail = render_entry(es.last());
    assert(render_all(es) == head + tail);
    if j == es.len() - 1 {
        let q = choose|q: int| 0 <= q < tail.len() && tail[q] == w;
        assert((head + tail)[head.len() + q] == w);
    } else {
        assert(es.drop_last()[j] == es[j]);
        lemma_render_all_holds(es.drop_last(), j, w);
        let q = choose|q: int| 0 <= q < head.len() && head[q] == w;
        assert((head + tail)[q] == w);
    }
}

/// Filing an entry into sorted groups keeps every entry that was there and
/// adds exactly the new one: all can be written out exactly when all could
/// before and the new one can.
pub proof fn lemma_file_under_renderable(g: GroupsView, k: NameView, e: EntryView)
    requires
        keys_sorted(g),
    ensures
        all_renderable(file_under(g, k, e)) == (all_renderable(g) && render_ok(e)),
{
    let f = file_under(g, k, e);
    if has_key(g, k) {
        let i = key_index(g, k);
        assert(0 <= i < g.len());
        if all_renderable(f) {
            assert(f[i].1[g[i].1.len() as int] == e);
            assert forall|a: int, b: int| 0 <= a < g.len() && 0 <= b < g[a].1.len() implies render_ok(
                #[trigger] g[a].1[b],
            ) by {
                assert(f[a].1[b] == g[a].1[b]);
            }
        }
        if all_renderable(g) && render_ok(e) {
            assert forall|a: int, b: int| 0 <= a < f.len() && 0 <= b < f[a].1.len() implies render_ok(
                #[trigger] f[a].1[b],
            ) by {
                if a == i && b == g[i].1.len() {
                } else {
                    assert(f[a].1[b] == g[a].1[b]);
                }
            }
        }
    } else {
        lemma_insert_position_exists(g, k);
        let p = insert_position(g, k);
        assert(splits_at(g, k, p));
        if all_renderable(f) {
            assert(f[p].1[0] == e);
            assert forall|a: int, b: int| 0 <= a < g.len() && 0 <= b < g[a].1.len() implies render_ok(
                #[trigger] g[a].1[b],
            ) by {
                if a < p {
                    assert(f[a] == g[a]);
                } else {
                    assert(f[a + 1] == g[a]);
                }
            }
        }
        if all_renderable(g) && render_ok(e) {
            assert forall|a: int, b: int| 0 <= a < f.len() && 0 <= b < f[a].1.len() implies render_ok(
                #[trigger] f[a].1[b],
            ) by {
                if a < p {
                    assert(f[a] == g[a]);
                } else if a > p {
                    assert(f[a] == g[a - 1]);
                } else {
                    assert(f[a] == (k, seq![e]));
                    assert(f[a].1[b] == e);
                }
            }
        }
    }
}

impl PartialEq for Name {
    /// Whether two names are the same name (see `equals`).
    fn eq(&self, other: &Self) -> (r: bool) {
        self.equals(other)
    }
}

impl vstd::std_specs::cmp::PartialEqSpecImpl for Name {
    open spec fn obeys_eq_spec() -> bool {
        true
    }

    open spec fn eq_spec(&self, other: &Self) -> bool {
        name_order(self@, other@) == 0
    }
}

impl Eq for Name {}

impl PartialOrd for Name {
    /// The partial order of two names (see `partial_compare`).
    fn partial_cmp(&self, other: &Self) -> (r: Option<Ordering>) {
        self.partial_compare(other)
    }
}

impl vstd::std_specs::cmp::PartialOrdSpecImpl for Name {
    open spec fn obeys_partial_cmp_spec() -> bool {
        true
    }

    open spec fn partial_cmp_spec(&self, other: &Self) -> Option<Ordering> {
        match name_partial_order(self@, other@) {
            Some(v) => Some(ordering_of(v)),
            None => None,
        }
    }
}

impl PartialEq for Entry {
    /// Entries are equal when their target names are the same name.
    fn eq(&self, other: &Self) -> (r: bool) {
        self.target_name.equals(&other.target_name)
    }
}

impl vstd::std_specs::cmp::PartialEqSpecImpl for Entry {
    open spec fn obeys_eq_spec() -> bool {
        true
    }

    open spec fn eq_spec(&self, other: &Self) -> bool {
        name_order(self.target_name@, other.target_name@) == 0
    }
}

impl Eq for Entry {}

impl PartialOrd for Entry {
    /// Entries are ordered by their target names.
    fn partial_cmp(&self, other: &Self) -> (r: Option<Ordering>) {
        self.target_name.partial_compare(&other.target_name)
    }
}

impl vstd::std_specs::cmp::PartialOrdSpecImpl for Entry {
    open spec fn obeys_partial_cmp_spec() -> bool {
        true
    }

    open spec fn partial_cmp_spec(&self, other: &Self) -> Option<Ordering> {
        match name_partial_order(self.target_name@, other.target_name@) {
            Some(v) => Some(ordering_of(v)),
            None => None,
        }
    }
}

impl Entry {
    /// The order of two entries: that of their target names (see
    /// `name_order`).
    pub fn compare(&self, other: &Entry) -> (r: Ordering)
        ensures
            r == ordering_of(name_order(self.target_name@, other.target_name@)),
    {
        self.target_name.compare(&other.target_name)
    }
}

impl Default for Name {
    /// The default name is `Undefined`.
    fn default() -> (r: Name)
        ensures
            r@ == NameView::Undefined,
    {
        Name::Undefined
    }
}

} // verus!
