//! The search tools that can run a search (grep, ripgrep, ugrep) and how a
//! search request becomes one of their command lines.
use vstd::prelude::*;
use crate::framework::{
    Argument, ArgumentView, Cmd, Convertible, DefaultValue, DefaultValueView, Entry, EntryMap,
    EntryView, Expand, Formatter, FormatterView, GroupsView, Name, NameView, PathText,
    Transformable, Transform, file_under, render_all, render_ok, cleaned, optional_path,
    optional_text, entry_views, keys_sorted, all_renderable, lemma_file_under_renderable,
    fill_view, put_optional_text, put_optional_path, put_bool, put_texts, entry_values,
    files_entry, lemma_file_under_keeps, lemma_render_all_holds, render_entry,
};
use crate::text::{same_text, split_on, split_text, texts};

verus! {

/// A search request: which tool to run, how to show results, and what to
/// search for.
pub struct Args {
    /// The tool to use: grep, ripgrep or ugrep.
    pub tool: String,
    /// List the tools instead of searching.
    pub list_tools: bool,
    /// Color mode.
    pub color: String,
    /// Print the command instead of running it.
    pub dry: bool,
    /// Order results by file name, line number and line.
    pub order_results: bool,
    /// Remove leading space.
    pub remove_leading: bool,
    /// The regular expression to search for.
    pub regex_pattern: Option<String>,
    /// The file or directory to search.
    pub file: Option<PathText>,
    /// Case insensitive mode.
    pub casei: bool,
    /// Globs of files to include.
    pub include_files: Vec<String>,
    /// Globs of files to exclude.
    pub exclude_files: Vec<String>,
    /// Globs of directories to include.
    pub include_dir: Vec<String>,
    /// Globs of directories to exclude.
    pub exclude_dir: Vec<String>,
}

/// A search tool: how each part of a request is passed to it, its fixed
/// arguments and its program name.
pub struct Grepper {
    /// The regular expression searched for.
    regex_pattern: Entry,
    /// The file or directory to search; directories may be searched recursively.
    file: Entry,
    /// Case sensitivity flag.
    casei: Entry,
    include_files: Entry,
    exclude_files: Entry,
    include_dir: Entry,
    exclude_dir: Entry,
    /// The fixed arguments, separated by single spaces.
    default_args: &'static str,
    /// The program name.
    command: &'static str,
}

/// The mathematical content of a [`Grepper`].
pub struct GrepperView {
    pub regex_pattern: EntryView,
    pub file: EntryView,
    pub casei: EntryView,
    pub include_files: EntryView,
    pub exclude_files: EntryView,
    pub include_dir: EntryView,
    pub exclude_dir: EntryView,
    pub default_args: Seq<char>,
    pub command: Seq<char>,
}

impl View for Grepper {
    type V = GrepperView;

    closed spec fn view(&self) -> GrepperView {
        GrepperView {
            regex_pattern: self.regex_pattern@,
            file: self.file@,
            casei: self.casei@,
            include_files: self.include_files@,
            exclude_files: self.exclude_files@,
            include_dir: self.include_dir@,
            exclude_dir: self.exclude_dir@,
            default_args: self.default_args@,
            command: self.command@,
        }
    }
}

/// The entries of a tool in the order they are filed.
pub open spec fn entries_of(g: GrepperView) -> Seq<EntryView> {
    seq![g.regex_pattern, g.file, g.casei, g.include_files, g.exclude_files, g.include_dir, g.exclude_dir]
}

/// A mandatory positional text entry at position 0.
pub open spec fn pattern_entry() -> EntryView {
    EntryView {
        defaults_to: DefaultValueView::Mandatory,
        format: (FormatterView::Default, FormatterView::Default),
        target_name: NameView::Blank(0),
        target_type: ArgumentView::Text(None),
    }
}

/// An optional positional path entry at position 1.
pub open spec fn path_entry() -> EntryView {
    EntryView {
        defaults_to: DefaultValueView::Skip,
        format: (FormatterView::Default, FormatterView::Default),
        target_name: NameView::Blank(1),
        target_type: ArgumentView::PathPattern(None),
    }
}

/// The case-insensitivity flag `-i`.
pub open spec fn casei_entry() -> EntryView {
    EntryView {
        defaults_to: DefaultValueView::Skip,
        format: (FormatterView::Default, FormatterView::Default),
        target_name: NameView::Short('i'),
        target_type: ArgumentView::BooleanFlag(None),
    }
}

/// An optional collection of globs under `name`, each word formatted by `out`.
pub open spec fn glob_entry(name: NameView, out: FormatterView) -> EntryView {
    EntryView {
        defaults_to: DefaultValueView::Skip,
        format: (FormatterView::Default, out),
        target_name: name,
        target_type: ArgumentView::CollectionText(None),
    }
}

/// Whether a tool is as the tool constructors make it: a mandatory pattern,
/// an optional path, the `-i` flag and four optional glob collections, none
/// of them filled in yet.
pub open spec fn fresh(g: GrepperView) -> bool {
    &&& g.regex_pattern == pattern_entry()
    &&& g.file == path_entry()
    &&& g.casei == casei_entry()
    &&& g.include_files.defaults_to == DefaultValueView::Skip && g.include_files.target_type
        == ArgumentView::CollectionText(None) && g.include_files.format.0 == FormatterView::Default
    &&& g.exclude_files.defaults_to == DefaultValueView::Skip && g.exclude_files.target_type
        == ArgumentView::CollectionText(None) && g.exclude_files.format.0 == FormatterView::Default
    &&& g.include_dir.defaults_to == DefaultValueView::Skip && g.include_dir.target_type
        == ArgumentView::CollectionText(None) && g.include_dir.format.0 == FormatterView::Default
    &&& g.exclude_dir.defaults_to == DefaultValueView::Skip && g.exclude_dir.target_type
        == ArgumentView::CollectionText(None) && g.exclude_dir.format.0 == FormatterView::Default
}

/// What `grep()` builds.
pub open spec fn grep_view() -> GrepperView {
    GrepperView {
        regex_pattern: pattern_entry(),
        file: path_entry(),
        casei: casei_entry(),
        include_files: glob_entry(NameView::LongC("include"@), FormatterView::Default),
        exclude_files: glob_entry(NameView::LongC("exclude"@), FormatterView::Default),
        include_dir: glob_entry(NameView::LongC("include_dir"@), FormatterView::Default),
        exclude_dir: glob_entry(NameView::LongC("exclude_dir"@), FormatterView::Default),
        default_args: "-Hnr"@,
        command: "grep"@,
    }
}

/// What `ripgrep()` builds.
pub open spec fn ripgrep_view() -> GrepperView {
    GrepperView {
        regex_pattern: pattern_entry(),
        file: path_entry(),
        casei: casei_entry(),
        include_files: glob_entry(NameView::Short('g'), FormatterView::Prefix(""@)),
        exclude_files: glob_entry(NameView::Short('g'), FormatterView::Prefix("!"@)),
        include_dir: glob_entry(NameView::Short('g'), FormatterView::Prefix(""@)),
        exclude_dir: glob_entry(NameView::Short('g'), FormatterView::Prefix("!"@)),
        default_args: "-Hn --no-heading"@,
        command: "rg"@,
    }
}

/// What `ugrep()` builds.
pub open spec fn ugrep_view() -> GrepperView {
    GrepperView {
        regex_pattern: pattern_entry(),
        file: path_entry(),
        casei: casei_entry(),
        include_files: glob_entry(NameView::LongC("include"@), FormatterView::Default),
        exclude_files: glob_entry(NameView::LongC("exclude"@), FormatterView::Default),
        include_dir: glob_entry(NameView::LongC("include-dir"@), FormatterView::Default),
        exclude_dir: glob_entry(NameView::LongC("exclude-dir"@), FormatterView::Default),
        default_args: "-rn"@,
        command: "ugrep"@,
    }
}

fn pattern() -> (e: Entry)
    ensures
        e@ == pattern_entry(),
{
    Entry {
        defaults_to: DefaultValue::Mandatory,
        format: (Formatter::Default, Formatter::Default),
        target_name: Name::Blank(0),
        target_type: Argument::Text(None),
    }
}

fn path() -> (e: Entry)
    ensures
        e@ == path_entry(),
{
    Entry {
        defaults_to: DefaultValue::Skip,
        format: (Formatter::Default, Formatter::Default),
        target_name: Name::Blank(1),
        target_type: Argument::PathPattern(None),
    }
}

fn globs(name: Name, out: Formatter) -> (e: Entry)
    ensures
        e@ == glob_entry(name@, out@),
{
    Entry {
        defaults_to: DefaultValue::Skip,
        format: (Formatter::Default, out),
        target_name: name,
        target_type: Argument::CollectionText(None),
    }
}

/// GNU grep: globs passed as `--include`, `--exclude`, `--include_dir` and
/// `--exclude_dir`; fixed arguments `-Hnr`.
pub fn grep() -> (g: Grepper)
    ensures
        g@ == grep_view(),
        fresh(g@),
{
    Grepper {
        regex_pattern: pattern(),
        file: path(),
        casei: Entry::bool(Name::Short('i')),
        include_files: globs(Name::LongC("include"), Formatter::Default),
        exclude_files: globs(Name::LongC("exclude"), Formatter::Default),
        include_dir: globs(Name::LongC("include_dir"), Formatter::Default),
        exclude_dir: globs(Name::LongC("exclude_dir"), Formatter::Default),
        default_args: "-Hnr",
        command: "grep",
    }
}

/// ripgrep: every glob passed with `-g`, exclusions prefixed by `!`; fixed
/// arguments `-Hn --no-heading`.
pub fn ripgrep() -> (g: Grepper)
    ensures
        g@ == ripgrep_view(),
        fresh(g@),
{
    Grepper {
        regex_pattern: pattern(),
        file: path(),
        casei: Entry::bool(Name::Short('i')),
        include_files: globs(Name::Short('g'), Formatter::Prefix("")),
        exclude_files: globs(Name::Short('g'), Formatter::Prefix("!")),
        include_dir: globs(Name::Short('g'), Formatter::Prefix("")),
        exclude_dir: globs(Name::Short('g'), Formatter::Prefix("!")),
        default_args: "-Hn --no-heading",
        command: "rg",
    }
}

/// ugrep: globs passed as `--include`, `--exclude`, `--include-dir` and
/// `--exclude-dir`; fixed arguments `-rn`.
pub fn ugrep() -> (g: Grepper)
    ensures
        g@ == ugrep_view(),
        fresh(g@),
{
    Grepper {
        regex_pattern: pattern(),
        file: path(),
        casei: Entry::bool(Name::Short('i')),
        include_files: globs(Name::LongC("include"), Formatter::Default),
        exclude_files: globs(Name::LongC("exclude"), Formatter::Default),
        include_dir: globs(Name::LongC("include-dir"), Formatter::Default),
        exclude_dir: globs(Name::LongC("exclude-dir"), Formatter::Default),
        default_args: "-rn",
        command: "ugrep",
    }
}


/// Whether `t` names a known tool.
pub open spec fn is_tool_name(t: Seq<char>) -> bool {
    t == "grep"@ || t == "ripgrep"@ || t == "ugrep"@
}

/// Whether two texts are equal.
/// The names of the known tools, in the order they are listed.
pub fn known_tools() -> (r: Vec<String>)
    ensures
        texts(r@) == seq!["grep"@, "ripgrep"@, "ugrep"@],
        forall|i: int| 0 <= i < r@.len() ==> is_tool_name(#[trigger] r@[i]@),
{
    let r = vec!["grep".to_owned(), "ripgrep".to_owned(), "ugrep".to_owned()];
    assert(texts(r@) =~= seq!["grep"@, "ripgrep"@, "ugrep"@]);
    r
}

/// Whether `tool` names a known tool (grep, ripgrep or ugrep).
pub fn is_tool(tool: &str) -> (b: bool)
    ensures
        b == is_tool_name(tool@),
{
    same_text(tool, "grep") || same_text(tool, "ripgrep") || same_text(tool, "ugrep")
}

/// The tool a name stands for.
pub fn picker(tool: &str) -> (g: Grepper)
    requires
        is_tool_name(tool@),
    ensures
        fresh(g@),
        tool@ == "grep"@ ==> g@ == grep_view(),
        tool@ == "ripgrep"@ ==> g@ == ripgrep_view(),
        tool@ == "ugrep"@ ==> g@ == ugrep_view(),
{
    proof {
        reveal_strlit("grep");
        reveal_strlit("ripgrep");
        reveal_strlit("ugrep");
        assert("grep"@.len() == 4);
        assert("ripgrep"@.len() == 7);
        assert("ugrep"@.len() == 5);
    }
    if same_text(tool, "grep") {
        grep()
    } else if same_text(tool, "ripgrep") {
        ripgrep()
    } else {
        ugrep()
    }
}

/// The groups once every entry of `es` is filed in order, from none.
pub open spec fn file_all(es: Seq<EntryView>) -> GroupsView
    decreases es.len(),
{
    if es.len() == 0 {
        GroupsView::empty()
    } else {
        file_under(file_all(es.drop_last()), es.last().target_name, es.last())
    }
}

/// A tool's entries filled with a request.
pub open spec fn filled_with(g: GrepperView, a: Args) -> GrepperView {
    GrepperView {
        regex_pattern: fill_view(
            g.regex_pattern,
            put_optional_text(g.regex_pattern.target_type, optional_text(a.regex_pattern)),
        ),
        file: fill_view(g.file, put_optional_path(g.file.target_type, optional_path(a.file))),
        casei: fill_view(g.casei, put_bool(g.casei.target_type, a.casei)),
        include_files: fill_view(
            g.include_files,
            put_texts(g.include_files.target_type, texts(a.include_files@)),
        ),
        exclude_files: fill_view(
            g.exclude_files,
            put_texts(g.exclude_files.target_type, texts(a.exclude_files@)),
        ),
        include_dir: fill_view(g.include_dir, put_texts(g.include_dir.target_type, texts(a.include_dir@))),
        exclude_dir: fill_view(g.exclude_dir, put_texts(g.exclude_dir.target_type, texts(a.exclude_dir@))),
        default_args: g.default_args,
        command: g.command,
    }
}

/// The command-line words of every group, in name order.
pub open spec fn render_groups(g: GroupsView) -> Seq<Seq<char>>
    decreases g.len(),
{
    if g.len() == 0 {
        Seq::empty()
    } else {
        render_groups(g.drop_last()) + render_all(g.last().1)
    }
}

/// Whether every entry of `g` can take the matching part of a request.
pub open spec fn takes(g: GrepperView) -> bool {
    &&& (g.regex_pattern.target_type is Text || g.regex_pattern.target_type is Empty)
    &&& (g.file.target_type is PathPattern || g.file.target_type is Text || g.file.target_type is Empty)
    &&& (g.casei.target_type is BooleanFlag || g.casei.target_type is Text || g.casei.target_type is Empty)
    &&& (g.include_files.target_type is CollectionText || g.include_files.target_type is Empty)
    &&& (g.exclude_files.target_type is CollectionText || g.exclude_files.target_type is Empty)
    &&& (g.include_dir.target_type is CollectionText || g.include_dir.target_type is Empty)
    &&& (g.exclude_dir.target_type is CollectionText || g.exclude_dir.target_type is Empty)
}

impl Convertible<Args> for Grepper {
    open spec fn populate_ok(&self, with: &Args) -> bool {
        takes(self@)
    }

    open spec fn generate_ok(&self, with: &EntryMap) -> bool {
        all_renderable(with@)
    }

    open spec fn populated(old: Self, new: Self, with: &Args, r: EntryMap) -> bool {
        &&& new@ == filled_with(old@, *with)
        &&& r@ == file_all(entries_of(new@))
        &&& keys_sorted(r@)
    }

    open spec fn command_of(&self, with: EntryMap) -> (Seq<char>, Seq<Seq<char>>) {
        (self@.command, render_groups(with@) + split_on(self@.default_args, ' '))
    }

    /// Fills each entry with its part of the request, then files the
    /// entries by name: positional arguments first, then short names, then
    /// long names.
    fn populate(&mut self, with: &Args) -> (r: EntryMap)
        ensures
            final(self)@ == filled_with(old(self)@, *with),
            r@ == file_all(entries_of(final(self)@)),
            keys_sorted(r@),
            final(self).generate_ok(&r) <==> (forall|k: int|
                0 <= k < 7 ==> render_ok(#[trigger] entries_of(final(self)@)[k])),
            fresh(old(self)@) ==> (final(self).generate_ok(&r) <==> with.regex_pattern is Some),
    {
        self.regex_pattern.fill(&with.regex_pattern);
        self.file.fill(&with.file);
        self.casei.fill(&with.casei);
        self.include_files.fill(&with.include_files);
        self.exclude_files.fill(&with.exclude_files);
        self.include_dir.fill(&with.include_dir);
        self.exclude_dir.fill(&with.exclude_dir);
        assert(self@ == filled_with(old(self)@, *with));
        let ghost es = entries_of(self@);
        let mut r = EntryMap::new();
        assert(es.take(0) =~= Seq::<EntryView>::empty());
        file_next(&mut r, &self.regex_pattern, Ghost(es), Ghost(0int));
        file_next(&mut r, &self.file, Ghost(es), Ghost(1int));
        file_next(&mut r, &self.casei, Ghost(es), Ghost(2int));
        file_next(&mut r, &self.include_files, Ghost(es), Ghost(3int));
        file_next(&mut r, &self.exclude_files, Ghost(es), Ghost(4int));
        file_next(&mut r, &self.include_dir, Ghost(es), Ghost(5int));
        file_next(&mut r, &self.exclude_dir, Ghost(es), Ghost(6int));
        assert(es.take(7) =~= es);
        proof {
            if fresh(old(self)@) {
                assert(render_ok(es[0]) <==> with.regex_pattern is Some);
                assert(render_ok(es[1]));
                assert(render_ok(es[2]));
                assert(render_ok(es[3]));
                assert(render_ok(es[4]));
                assert(render_ok(es[5]));
                assert(render_ok(es[6]));
            }
        }
        r
    }

    /// The program name with the words of every group in name order,
    /// followed by the fixed arguments split at single spaces.
    fn generate(&self, with: EntryMap) -> (r: Cmd)
        ensures
            r.0@ == self@.command,
            texts(r.1@) == render_groups(with@) + split_on(self@.default_args, ' '),
    {
        let mut words: Vec<String> = Vec::new();
        let n: usize = with.len();
        let mut i: usize = 0;
        assert(with@.take(0) =~= GroupsView::empty());
        while i < n
            invariant
                n == with@.len(),
                i <= n,
                all_renderable(with@),
                texts(words@) == render_groups(with@.take(i as int)),
            decreases n - i,
        {
            let group = with.group(i);
            assert forall|j: int| 0 <= j < group.1@.len() implies render_ok(#[trigger] group.1@[j]@) by {
                assert(entry_views(group.1@)[j] == group.1@[j]@);
                assert(with@[i as int].1[j] == group.1@[j]@);
            }
            words.transform(&group.1);
            assert(with@.take(i + 1).drop_last() =~= with@.take(i as int));
            i = i + 1;
        }
        assert(with@.take(n as int) =~= with@);
        let mut fixed = split_text(self.default_args, ' ');
        let ghost w = texts(words@);
        let ghost f = texts(fixed@);
        words.append(&mut fixed);
        assert(texts(words@) =~= w + f);
        (self.command.to_owned(), words)
    }
}

/// Files the next entry of `es` into a bundle holding the ones before it.
fn file_next(r: &mut EntryMap, e: &Entry, Ghost(es): Ghost<Seq<EntryView>>, Ghost(k): Ghost<int>)
    requires
        0 <= k < es.len(),
        es[k] == e@,
        old(r)@ == file_all(es.take(k)),
        keys_sorted(old(r)@),
        all_renderable(old(r)@) <==> (forall|j: int| 0 <= j < k ==> render_ok(#[trigger] es[j])),
    ensures
        final(r)@ == file_all(es.take(k + 1)),
        keys_sorted(final(r)@),
        all_renderable(final(r)@) <==> (forall|j: int| 0 <= j < k + 1 ==> render_ok(#[trigger] es[j])),
{
    let ghost prev = r@;
    r.expand_field(e);
    proof {
        lemma_file_under_renderable(prev, e@.target_name, e@);
        assert(es.take(k + 1).drop_last() =~= es.take(k));
    }
}

/// The tool that a name picks (grep, ripgrep or ugrep).
pub open spec fn tool_of(t: Seq<char>) -> GrepperView {
    if t == "grep"@ {
        grep_view()
    } else if t == "ripgrep"@ {
        ripgrep_view()
    } else {
        ugrep_view()
    }
}

/// The arguments of the command that runs a request: the words of the
/// tool's entries filled with the request, filed in name order, then the
/// tool's fixed arguments.
pub open spec fn search_words(a: Args) -> Seq<Seq<char>> {
    let g = filled_with(tool_of(a.tool@), a);
    render_groups(file_all(entries_of(g))) + split_on(g.default_args, ' ')
}

/// The command that runs a search request with the tool it names: `None`
/// when the request has no pattern to search for.
pub fn search_command(args: &Args) -> (r: Option<Cmd>)
    requires
        is_tool_name(args.tool@),
    ensures
        r is Some <==> args.regex_pattern is Some,
        r matches Some(c) ==> c.0@ == tool_of(args.tool@).command && texts(c.1@) == search_words(*args),
{
    let mut g = picker(args.tool.as_str());
    assert(g@ == tool_of(args.tool@));
    let q = g.populate(args);
    if q.ready() {
        Some(g.generate(q))
    } else {
        None
    }
}

/// Filing entries one after the other keeps the names sorted and files
/// every one of them.
pub proof fn lemma_file_all_holds(es: Seq<EntryView>)
    ensures
        keys_sorted(file_all(es)),
        forall|k: int| 0 <= k < es.len() ==> files_entry(file_all(es), #[trigger] es[k]),
    decreases es.len(),
{
    if es.len() > 0 {
        let h = es.drop_last();
        lemma_file_all_holds(h);
        lemma_file_under_keeps(file_all(h), es.last().target_name, es.last());
        assert forall|k: int| 0 <= k < es.len() implies files_entry(file_all(es), #[trigger] es[k]) by {
            if k < es.len() - 1 {
                assert(h[k] == es[k]);
            }
        }
    }
}

/// Every word of a group's entries is among the words of all the groups.
pub proof fn lemma_render_groups_holds(g: GroupsView, i: int, w: Seq<char>)
    requires
        0 <= i < g.len(),
        render_all(g[i].1).contains(w),
    ensures
        render_groups(g).contains(w),
    decreases g.len(),
{
    let head = render_groups(g.drop_last());
    let tail = render_all(g.last().1);
    assert(render_groups(g) == head + tail);
    if i == g.len() - 1 {
        let q = choose|q: int| 0 <= q < tail.len() && tail[q] == w;
        assert((head + tail)[head.len() + q] == w);
    } else {
        assert(g.drop_last()[i] == g[i]);
        lemma_render_groups_holds(g.drop_last(), i, w);
        let q = choose|q: int| 0 <= q < head.len() && head[q] == w;
        assert((head + tail)[q] == w);
    }
}

/// Every word that one of the request's filled entries renders is among
/// the words of the command that runs the request.
pub proof fn lemma_search_words_hold(a: Args, k: int, w: Seq<char>)
    requires
        0 <= k < 7,
        render_entry(entries_of(filled_with(tool_of(a.tool@), a))[k]).contains(w),
    ensures
        search_words(a).contains(w),
{
    let es = entries_of(filled_with(tool_of(a.tool@), a));
    let g = file_all(es);
    lemma_file_all_holds(es);
    assert(files_entry(g, es[k]));
    let (i, j) = choose|i: int, j: int| 0 <= i < g.len() && 0 <= j < g[i].1.len() && #[trigger] g[i].1[j] == es[k];
    lemma_render_all_holds(g[i].1, j, w);
    lemma_render_groups_holds(g, i, w);
    let words = render_groups(g);
    let q = choose|q: int| 0 <= q < words.len() && words[q] == w;
    assert(search_words(a) == words + split_on(filled_with(tool_of(a.tool@), a).default_args, ' '));
    assert(search_words(a)[q] == w);
}

/// With ripgrep, every glob of files or directories to exclude reaches the
/// command negated, as `-g=!glob`, and every (non-empty) glob to include as
/// `-g=glob`.
pub proof fn lemma_ripgrep_globs(a: Args, k: int)
    requires
        a.tool@ == "ripgrep"@,
    ensures
        0 <= k < a.exclude_dir@.len() ==> search_words(a).contains("-g=!"@ + a.exclude_dir@[k]@),
        0 <= k < a.exclude_files@.len() ==> search_words(a).contains("-g=!"@ + a.exclude_files@[k]@),
        0 <= k < a.include_dir@.len() && a.include_dir@[k]@.len() > 0 ==> search_words(a).contains(
            "-g="@ + a.include_dir@[k]@,
        ),
        0 <= k < a.include_files@.len() && a.include_files@[k]@.len() > 0 ==> search_words(a).contains(
            "-g="@ + a.include_files@[k]@,
        ),
{
    reveal_strlit("ripgrep");
    reveal_strlit("grep");
    reveal_strlit("-g=!");
    reveal_strlit("-g=");
    reveal_strlit("!");
    reveal_strlit("");
    assert("ripgrep"@ != "grep"@) by {
        assert("ripgrep"@.len() != "grep"@.len());
    }
    assert(tool_of(a.tool@) == ripgrep_view());
    let es = entries_of(filled_with(ripgrep_view(), a));
    if 0 <= k < a.exclude_dir@.len() {
        let g = a.exclude_dir@[k]@;
        let r = render_entry(es[6]);
        assert(texts(a.exclude_dir@)[k] == g);
        assert(r[k] == seq!['-', 'g'] + seq!['='] + ("!"@ + g));
        assert(r[k] =~= "-g=!"@ + g);
        lemma_search_words_hold(a, 6, "-g=!"@ + g);
    }
    if 0 <= k < a.exclude_files@.len() {
        let g = a.exclude_files@[k]@;
        let r = render_entry(es[4]);
        assert(texts(a.exclude_files@)[k] == g);
        assert(r[k] == seq!['-', 'g'] + seq!['='] + ("!"@ + g));
        assert(r[k] =~= "-g=!"@ + g);
        lemma_search_words_hold(a, 4, "-g=!"@ + g);
    }
    if 0 <= k < a.include_dir@.len() && a.include_dir@[k]@.len() > 0 {
        let g = a.include_dir@[k]@;
        let r = render_entry(es[5]);
        assert(texts(a.include_dir@)[k] == g);
        assert(""@ + g =~= g);
        assert(r[k] == seq!['-', 'g'] + seq!['='] + (""@ + g));
        assert(r[k] =~= "-g="@ + g);
        lemma_search_words_hold(a, 5, "-g="@ + g);
    }
    if 0 <= k < a.include_files@.len() && a.include_files@[k]@.len() > 0 {
        let g = a.include_files@[k]@;
        let r = render_entry(es[3]);
        assert(texts(a.include_files@)[k] == g);
        assert(""@ + g =~= g);
        assert(r[k] == seq!['-', 'g'] + seq!['='] + (""@ + g));
        assert(r[k] =~= "-g="@ + g);
        lemma_search_words_hold(a, 3, "-g="@ + g);
    }
}

} // verus!
