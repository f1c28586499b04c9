//! Opening a result of the last search in an editor: the tool registry, the
//! lookup of a tool's command template, and the command line it gives.
use vstd::prelude::*;
use vstd::string::StringExecFns;
use vstd::string::StringSliceAdditionalSpecFns;
use vstd::utf8::{valid_utf8, decode_utf8, encode_utf8};
use crate::common::{Match, MatchView, match_views, copy_bytes};
use crate::pattern::{
    found_match, replaced_first, indexed_captures, is_match, replace_first, captures_by_index,
    optional_texts,
};
use crate::text::{texts, decimal, decimal_string, split_on, split_text};

verus! {

/// The tool registry used when none has been saved: one definition per line,
/// `name: template`, where the template holds `{file}` and `{line}`.
pub const TOOLS: &'static str = "vscode: code -g {file}:{line}\npico: pico +{line} {file}\nnano: nano +{line} {file}\nvim: vim +{line} {file}\nemacs: emacs +{line} {file}";

/// Why a result cannot be opened.
#[derive(PartialEq, Eq, Structural, Debug, Clone, Copy)]
pub enum OpenError {
    /// No result has the requested id.
    BadId,
    /// No tool of the requested name is defined.
    NoTool,
    /// A search pattern was refused by the regular-expression engine.
    BadPattern,
    /// The filled template holds no word to run.
    NoExecutable,
}

/// The pattern that finds the definition of `tool`: the name at the start of
/// a line, followed by a colon.
pub open spec fn tool_pattern(tool: Seq<char>) -> Seq<char> {
    "^"@ + tool + ":"@
}

/// The first of `lines` that `p` matches.
pub open spec fn tool_line(p: Seq<char>, lines: Seq<Seq<char>>) -> Result<Seq<char>, OpenError>
    decreases lines.len(),
{
    if lines.len() == 0 {
        Err(OpenError::NoTool)
    } else {
        match found_match(p, lines[0]) {
            None => Err(OpenError::BadPattern),
            Some(true) => Ok(lines[0]),
            Some(false) => tool_line(p, lines.drop_first()),
        }
    }
}

/// The command template of `tool` in the registry `lines`: the first line
/// that defines it, without the name and its colon.
pub open spec fn tool_definition(lines: Seq<Seq<char>>, tool: Seq<char>) -> Result<Seq<char>, OpenError> {
    let p = tool_pattern(tool);
    match tool_line(p, lines) {
        Ok(line) => match replaced_first(p, line, ""@) {
            Some(d) => Ok(d),
            None => Err(OpenError::BadPattern),
        },
        Err(e) => Err(e),
    }
}

/// Builds the pattern that finds the definition of `tool`.
fn make_tool_pattern(tool: &str) -> (r: String)
    ensures
        r@ == tool_pattern(tool@),
{
    let mut p = String::new();
    p.append("^");
    p.append(tool);
    p.append(":");
    p
}

/// The command template of `tool` in the registry `tool_list` (one
/// definition per line; see `tool_definition`), or why there is none.
pub fn try_get_tool(tool_list: &Vec<String>, tool: &str) -> (r: Result<String, OpenError>)
    ensures
        (match r {
            Ok(d) => tool_definition(texts(tool_list@), tool@) == Ok::<Seq<char>, OpenError>(d@),
            Err(e) => tool_definition(texts(tool_list@), tool@) == Err::<Seq<char>, OpenError>(e),
        }),
{
    let p = make_tool_pattern(tool);
    let ghost lines = texts(tool_list@);
    let n: usize = tool_list.len();
    let mut i: usize = 0;
    assert(lines.skip(0) =~= lines);
    while i < n
        invariant
            i <= n,
            n == tool_list@.len(),
            lines == texts(tool_list@),
            p@ == tool_pattern(tool@),
            tool_line(p@, lines) == tool_line(p@, lines.skip(i as int)),
        decreases n - i,
    {
        let ghost rest = lines.skip(i as int);
        assert(rest[0] == tool_list@[i as int]@);
        assert(rest.drop_first() =~= lines.skip(i + 1));
        match is_match(p.as_str(), tool_list[i].as_str()) {
            None => {
                return Err(OpenError::BadPattern);
            },
            Some(true) => {
                return match replace_first(p.as_str(), tool_list[i].as_str(), "") {
                    Some(d) => Ok(d),
                    None => Err(OpenError::BadPattern),
                };
            },
            Some(false) => {},
        }
        i = i + 1;
    }
    assert(lines.skip(n as int) =~= Seq::<Seq<char>>::empty());
    Err(OpenError::NoTool)
}

/// The command template of `tool` in the registry `tool_list`, which
/// defines it (see `tool_definition`).
pub fn get_tool(tool_list: &Vec<String>, tool: &str) -> (r: String)
    requires
        tool_definition(texts(tool_list@), tool@) is Ok,
    ensures
        tool_definition(texts(tool_list@), tool@) == Ok::<Seq<char>, OpenError>(r@),
{
    match try_get_tool(tool_list, tool) {
        Ok(d) => d,
        Err(_) => String::new(),
    }
}

/// The placeholder for the file in a command template.
pub open spec fn file_pattern() -> Seq<char> {
    "\\{file\\}"@
}

/// The placeholder for the line number in a command template.
pub open spec fn line_pattern() -> Seq<char> {
    "\\{line\\}"@
}

/// One word of a template with the first `{file}` replaced by the path and
/// then the first `{line}` by the line number.
pub open spec fn filled_word(word: Seq<char>, path: Seq<char>, line: nat) -> Option<Seq<char>> {
    match replaced_first(file_pattern(), word, path) {
        Some(w) => replaced_first(line_pattern(), w, decimal(line)),
        None => None,
    }
}

/// Each word filled (see `filled_word`); `None` when a replacement failed.
pub open spec fn filled_words(words: Seq<Seq<char>>, path: Seq<char>, line: nat) -> Option<Seq<Seq<char>>>
    decreases words.len(),
{
    if words.len() == 0 {
        Some(Seq::empty())
    } else {
        match (filled_words(words.drop_last(), path, line), filled_word(words.last(), path, line)) {
            (Some(ws), Some(w)) => Some(ws.push(w)),
            _ => None,
        }
    }
}

/// The words that are not empty, in order.
pub open spec fn non_empty_words(words: Seq<Seq<char>>) -> Seq<Seq<char>>
    decreases words.len(),
{
    if words.len() == 0 {
        Seq::empty()
    } else if words.last().len() > 0 {
        non_empty_words(words.drop_last()).push(words.last())
    } else {
        non_empty_words(words.drop_last())
    }
}

/// The command made of words: the first word that is not empty runs, with
/// the others that are not empty as its arguments.
pub open spec fn command_of(words: Seq<Seq<char>>) -> Result<(Seq<char>, Seq<Seq<char>>), OpenError> {
    let kept = non_empty_words(words);
    if kept.len() == 0 {
        Err(OpenError::NoExecutable)
    } else {
        Ok((kept[0], kept.drop_first()))
    }
}

/// The command that opens `path` at `line` with a tool's template: the
/// template split at spaces, each word filled, empty words dropped.
pub open spec fn editor_command_of(template: Seq<char>, path: Seq<char>, line: nat) -> Result<(Seq<char>, Seq<Seq<char>>), OpenError> {
    match filled_words(split_on(template, ' '), path, line) {
        Some(words) => command_of(words),
        None => Err(OpenError::BadPattern),
    }
}

/// Once a word cannot be filled, the whole template cannot.
proof fn lemma_filled_words_fail(words: Seq<Seq<char>>, path: Seq<char>, line: nat, k: int)
    requires
        0 <= k <= words.len(),
        filled_words(words.take(k), path, line) is None,
    ensures
        filled_words(words, path, line) is None,
    decreases words.len(),
{
    if k < words.len() {
        assert(words.drop_last().take(k) =~= words.take(k));
        lemma_filled_words_fail(words.drop_last(), path, line, k);
    } else {
        assert(words.take(k) =~= words);
    }
}

/// The view of a command.
pub open spec fn command_view(c: (String, Vec<String>)) -> (Seq<char>, Seq<Seq<char>>) {
    (c.0@, texts(c.1@))
}

/// Fills one word of a template (see `filled_word`).
pub fn fill_word(word: &str, path: &str, line: usize) -> (r: Option<String>)
    ensures
        (match r {
            Some(w) => filled_word(word@, path@, line as nat) == Some(w@),
            None => filled_word(word@, path@, line as nat) is None,
        }),
{
    match replace_first("\\{file\\}", word, path) {
        Some(w) => {
            let n = decimal_string(line);
            replace_first("\\{line\\}", w.as_str(), n.as_str())
        },
        None => None,
    }
}

/// Keeps the first word that is not empty as the program and the others
/// that are not empty as its arguments (see `command_of`).
pub fn to_command(words: &Vec<String>) -> (r: Result<(String, Vec<String>), OpenError>)
    ensures
        (match r {
            Ok(c) => command_of(texts(words@)) == Ok::<(Seq<char>, Seq<Seq<char>>), OpenError>(command_view(c)),
            Err(e) => command_of(texts(words@)) == Err::<(Seq<char>, Seq<Seq<char>>), OpenError>(e),
        }),
{
    let ghost ws = texts(words@);
    let mut kept: Vec<String> = Vec::new();
    let mut i: usize = 0;
    assert(ws.take(0) =~= Seq::<Seq<char>>::empty());
    while i < words.len()
        invariant
            i <= words@.len(),
            ws == texts(words@),
            texts(kept@) == non_empty_words(ws.take(i as int)),
        decreases words@.len() - i,
    {
        assert(ws.take(i + 1).drop_last() =~= ws.take(i as int));
        if !words[i].as_str().is_empty() {
            kept.push(words[i].clone());
        }
        assert(texts(kept@) =~= non_empty_words(ws.take(i + 1)));
        i = i + 1;
    }
    assert(ws.take(words@.len() as int) =~= ws);
    if kept.len() == 0 {
        Err(OpenError::NoExecutable)
    } else {
        let program = kept.remove(0);
        proof {
            assert(texts(kept@) =~= non_empty_words(ws).drop_first());
        }
        Ok((program, kept))
    }
}

/// The command that opens `path` at `line` with the template of a tool (see
/// `editor_command_of`).
pub fn editor_command(template: &str, path: &str, line: usize) -> (r: Result<(String, Vec<String>), OpenError>)
    ensures
        (match r {
            Ok(c) => editor_command_of(template@, path@, line as nat) == Ok::<(Seq<char>, Seq<Seq<char>>), OpenError>(command_view(c)),
            Err(e) => editor_command_of(template@, path@, line as nat) == Err::<(Seq<char>, Seq<Seq<char>>), OpenError>(e),
        }),
{
    let words = split_text(template, ' ');
    let ghost ws = texts(words@);
    let mut filled: Vec<String> = Vec::new();
    let mut i: usize = 0;
    assert(ws.take(0) =~= Seq::<Seq<char>>::empty());
    while i < words.len()
        invariant
            i <= words@.len(),
            ws == texts(words@),
            ws == split_on(template@, ' '),
            filled_words(ws.take(i as int), path@, line as nat) == Some(texts(filled@)),
        decreases words@.len() - i,
    {
        assert(ws.take(i + 1).drop_last() =~= ws.take(i as int));
        assert(ws.take(i + 1).last() == words@[i as int]@);
        match fill_word(words[i].as_str(), path, line) {
            Some(w) => {
                let ghost before = texts(filled@);
                filled.push(w);
                assert(texts(filled@) =~= before.push(w@));
            },
            None => {
                proof {
                    lemma_filled_words_fail(ws, path@, line as nat, i + 1);
                }
                return Err(OpenError::BadPattern);
            },
        }
        i = i + 1;
    }
    assert(ws.take(words@.len() as int) =~= ws);
    to_command(&filled)
}

/// The path that `name` names relative to `base`, as `PathBuf::push` forms
/// it on Unix: an absolute `name` replaces `base`; otherwise a `/` is put
/// between them unless `base` is empty or already ends with one.
pub open spec fn joined_path(base: Seq<u8>, name: Seq<u8>) -> Seq<u8> {
    if name.len() > 0 && name[0] == 47u8 {
        name
    } else if base.len() == 0 || base.last() == 47u8 {
        base + name
    } else {
        base.push(47u8) + name
    }
}

/// Joins `name` to `base` (see `joined_path`).
pub fn join_path(base: &[u8], name: &[u8]) -> (r: Vec<u8>)
    ensures
        r@ == joined_path(base@, name@),
{
    let mut r: Vec<u8> = if name.len() > 0 && name[0] == 47u8 {
        Vec::new()
    } else if base.len() == 0 || base[base.len() - 1] == 47u8 {
        copy_bytes(base, 0, base.len())
    } else {
        let mut b = copy_bytes(base, 0, base.len());
        b.push(47u8);
        b
    };
    let mut tail = copy_bytes(name, 0, name.len());
    r.append(&mut tail);
    assert(base@.subrange(0, base@.len() as int) =~= base@);
    assert(name@.subrange(0, name@.len() as int) =~= name@);
    r
}

/// What `String::from_utf8_lossy` makes of `bytes`: their text, with each
/// invalid sequence replaced by U+FFFD.
pub uninterp spec fn lossy_text(bytes: Seq<u8>) -> Seq<char>;

/// `String::from_utf8_lossy`. The result is named (see `lossy_text`); of
/// valid UTF-8 it is the decoded text, as the documentation says.
#[verifier::external_body]
pub(crate) fn decode_lossy(bytes: &[u8]) -> (r: String)
    ensures
        r@ == lossy_text(bytes@),
        valid_utf8(bytes@) ==> r@ == decode_utf8(bytes@),
{
    String::from_utf8_lossy(bytes).into_owned()
}

/// The command that opens result `id` of the last search, kept with the
/// directory `last_path` it ran in, with the tool `tool` of the registry
/// `tool_list`: the result's file joined to that directory, at its line.
pub open spec fn open_command_of(
    tool_list: Seq<char>,
    last_path: Seq<u8>,
    results: Seq<MatchView>,
    id: int,
    tool: Seq<char>,
) -> Result<(Seq<char>, Seq<Seq<char>>), OpenError> {
    if id < 0 || id >= results.len() {
        Err(OpenError::BadId)
    } else {
        let request = results[id];
        match tool_definition(split_on(tool_list, '\n'), tool) {
            Err(e) => Err(e),
            Ok(template) => editor_command_of(
                template,
                lossy_text(joined_path(last_path, encode_utf8(request.filename))),
                request.line as nat,
            ),
        }
    }
}

/// The command that opens result `id` of the last search (see
/// `open_command_of`).
pub fn open_command(tool_list: &str, last_path: &[u8], results: &Vec<Match>, id: usize, tool: &str) -> (r: Result<(String, Vec<String>), OpenError>)
    ensures
        (match r {
            Ok(c) => open_command_of(tool_list@, last_path@, match_views(results@), id as int, tool@)
                == Ok::<(Seq<char>, Seq<Seq<char>>), OpenError>(command_view(c)),
            Err(e) => open_command_of(tool_list@, last_path@, match_views(results@), id as int, tool@)
                == Err::<(Seq<char>, Seq<Seq<char>>), OpenError>(e),
        }),
{
    if id >= results.len() {
        return Err(OpenError::BadId);
    }
    let request = &results[id];
    let lines = split_text(tool_list, '\n');
    let template = match try_get_tool(&lines, tool) {
        Ok(_) => get_tool(&lines, tool),
        Err(e) => {
            return Err(e);
        },
    };
    let full = join_path(last_path, request.filename.as_str().as_bytes());
    let path = decode_lossy(full.as_slice());
    editor_command(template.as_str(), path.as_str(), request.line)
}

/// The pattern that finds the name of each tool in the registry.
pub open spec fn tool_name_pattern() -> Seq<char> {
    "(?m)^(\\w+):.*$"@
}

/// The texts of captured groups, when every group took part.
pub open spec fn all_present(groups: Seq<Option<Seq<char>>>) -> Option<Seq<Seq<char>>> {
    if forall|i: int| 0 <= i < groups.len() ==> (#[trigger] groups[i]) is Some {
        Some(groups.map_values(|g: Option<Seq<char>>| g->0))
    } else {
        None
    }
}

/// The names of the tools in the registry, in order: the first group of
/// each match of `tool_name_pattern`. `None` when the pattern is refused or
/// a match lacks the group.
pub open spec fn tool_names_of(tool_list: Seq<char>) -> Option<Seq<Seq<char>>> {
    match indexed_captures(tool_name_pattern(), tool_list, 1) {
        Some(groups) => all_present(groups),
        None => None,
    }
}

/// The texts of captured groups, when every group took part (see
/// `all_present`).
pub fn names_of_groups(groups: &Vec<Option<String>>) -> (r: Option<Vec<String>>)
    ensures
        (match r {
            Some(v) => all_present(optional_texts(groups@)) == Some(texts(v@)),
            None => all_present(optional_texts(groups@)) is None,
        }),
{
    let ghost gs = optional_texts(groups@);
    let mut names: Vec<String> = Vec::new();
    let mut i: usize = 0;
    while i < groups.len()
        invariant
            i <= groups@.len(),
            gs == optional_texts(groups@),
            forall|k: int| 0 <= k < i ==> (#[trigger] gs[k]) is Some,
            texts(names@) =~= gs.take(i as int).map_values(|g: Option<Seq<char>>| g->0),
        decreases groups@.len() - i,
    {
        match &groups[i] {
            Some(name) => {
                let ghost before = texts(names@);
                names.push(name.clone());
                assert(gs[i as int] == Some(name@));
                assert(texts(names@) =~= before.push(name@));
                assert(gs.take(i + 1).map_values(|g: Option<Seq<char>>| g->0)
                    =~= gs.take(i as int).map_values(|g: Option<Seq<char>>| g->0).push(name@));
            },
            None => {
                assert(gs[i as int] is None);
                return None;
            },
        }
        i = i + 1;
    }
    assert(gs.take(groups@.len() as int) =~= gs);
    Some(names)
}

/// The names of the tools in the registry (see `tool_names_of`).
pub fn tool_names(tool_list: &str) -> (r: Option<Vec<String>>)
    ensures
        (match r {
            Some(v) => tool_names_of(tool_list@) == Some(texts(v@)),
            None => tool_names_of(tool_list@) is None,
        }),
{
    match captures_by_index("(?m)^(\\w+):.*$", tool_list, 1) {
        Some(groups) => names_of_groups(&groups),
        None => None,
    }
}

/// The registry saved by a first new tool: the default tools, then the new
/// definition on a line of its own.
pub fn new_registry(definition: &str) -> (r: String)
    ensures
        r@ == TOOLS@ + definition@ + "\n"@,
{
    let mut r = String::new();
    r.append(TOOLS);
    r.append(definition);
    r.append("\n");
    r
}

/// The line that adds a tool to a saved registry.
pub fn registry_entry(definition: &str) -> (r: String)
    ensures
        r@ == definition@ + "\n"@,
{
    let mut r = String::new();
    r.append(definition);
    r.append("\n");
    r
}

/// The registry in use: the saved one, or the default tools where none was
/// saved.
pub fn registry_or_default(saved: Option<String>) -> (r: String)
    ensures
        r@ == (match saved {
            Some(s) => s@,
            None => TOOLS@,
        }),
{
    match saved {
        Some(s) => s,
        None => String::from_str(TOOLS),
    }
}

/// A request to open code: which result, with which tool, or a tool to
/// define, or the list of tools.
pub struct Args {
    /// The id of the result to open.
    pub id: Option<usize>,
    /// Color mode.
    pub color: String,
    /// The name of the tool to open it with.
    pub tool: String,
    /// A tool definition to add to the registry.
    pub new_tool: Option<String>,
    /// List the tools of the registry.
    pub list_tools: bool,
}

/// What a request to open code asks for.
#[derive(PartialEq, Eq, Structural, Debug, Clone, Copy)]
pub enum Request {
    /// Open a result of the last search.
    Open,
    /// Add a tool to the registry.
    AddTool,
    /// List the tools of the registry.
    ListTools,
    /// Show the last search again.
    ShowLast,
}

/// What a request asks for: an id opens a result; otherwise a new tool is
/// added; otherwise the tools are listed if asked; otherwise the last
/// search is shown.
pub open spec fn request_of(args: Args) -> Request {
    if args.id is Some {
        Request::Open
    } else if args.new_tool is Some {
        Request::AddTool
    } else if args.list_tools {
        Request::ListTools
    } else {
        Request::ShowLast
    }
}

/// What a request asks for (see `request_of`).
pub fn request(args: &Args) -> (r: Request)
    ensures
        r == request_of(*args),
{
    if args.id.is_some() {
        Request::Open
    } else if args.new_tool.is_some() {
        Request::AddTool
    } else if args.list_tools {
        Request::ListTools
    } else {
        Request::ShowLast
    }
}

} // verus!
