//! Line-editing support for the chat prompt: completion of slash commands,
//! multi-line input, and prompts replayed into a conversation.
use vstd::prelude::*;
use vstd::string::StringSliceAdditionalSpecFns;
use crate::text::{ends_with, has_prefix, has_suffix, is_white_space, push_str, starts_with, string_of, substring};

verus! {

/// Who said something in a conversation.
#[derive(Clone, Copy, Debug, PartialEq, Eq, Structural)]
pub enum Role {
    User,
    LlmAssistant,
}

/// One entry of a conversation to replay.
pub struct Prompt {
    pub role: Role,
    pub content: String,
}

/// The commands offered for completion.
pub const COMPLETION_COMMANDS: [&'static str; 5] = ["/clear", "/context show", "/usage", "/exit", "/help"];

/// The commands offered for completion, as mathematical values.
pub open spec fn completion_commands() -> Seq<Seq<char>> {
    seq!["/clear"@, "/context show"@, "/usage"@, "/exit"@, "/help"@]
}

/// The entries of `cmds` that start with `word`, in order.
pub open spec fn with_prefix(cmds: Seq<Seq<char>>, word: Seq<char>) -> Seq<Seq<char>>
    decreases cmds.len(),
{
    if cmds.len() == 0 {
        Seq::empty()
    } else if has_prefix(cmds.last(), word) {
        with_prefix(cmds.drop_last(), word).push(cmds.last())
    } else {
        with_prefix(cmds.drop_last(), word)
    }
}

/// The completions of `word` among the slash commands, to replace the text from
/// `start` on.
pub fn complete_command(word: &str, start: usize) -> (r: (usize, Vec<String>))
    ensures
        r.0 == start,
        r.1@.len() == with_prefix(completion_commands(), word@).len(),
        forall|i: int| 0 <= i < r.1@.len() ==> (#[trigger] r.1@[i])@ == with_prefix(completion_commands(), word@)[i],
{
    let mut out: Vec<String> = Vec::new();
    let mut i: usize = 0;
    while i < 5
        invariant
            i <= 5,
            COMPLETION_COMMANDS@.len() == 5,
            forall|k: int| 0 <= k < 5 ==> (#[trigger] COMPLETION_COMMANDS@[k])@ == completion_commands()[k],
            out@.len() == with_prefix(completion_commands().subrange(0, i as int), word@).len(),
            forall|k: int| 0 <= k < out@.len() ==> (#[trigger] out@[k])@ == with_prefix(
                completion_commands().subrange(0, i as int),
                word@,
            )[k],
        decreases 5 - i,
    {
        let ghost before = completion_commands().subrange(0, i as int);
        let ghost after = completion_commands().subrange(0, i + 1);
        assert(after.drop_last() == before);
        assert(after.last() == COMPLETION_COMMANDS@[i as int]@);
        let cmd = COMPLETION_COMMANDS[i];
        if starts_with(cmd, word) {
            out.push(string_of(cmd));
        }
        i = i + 1;
    }
    assert(completion_commands().subrange(0, 5) == completion_commands());
    (start, out)
}

/// Whether the line typed so far is a whole input or needs more lines.
#[derive(Clone, Copy, Debug, PartialEq, Eq, Structural)]
pub enum ValidationOutcome {
    Incomplete,
    Valid,
}

/// Accepts input spanning several lines: an unterminated ``` block, or a line
/// ending in a backslash, asks for more.
pub struct MultiLineValidator;

/// Whether `input` needs more lines.
pub open spec fn needs_more_lines(input: Seq<char>) -> bool {
    (has_prefix(input, "```"@) && !has_suffix(input, "```"@)) || has_suffix(input, "\\"@)
}

/// Whether `s` starts with three backticks.
pub open spec fn opens_fence(s: Seq<char>) -> bool {
    s.len() >= 3 && s[0] == '`' && s[1] == '`' && s[2] == '`'
}

/// Whether `s` ends with three backticks.
pub open spec fn closes_fence(s: Seq<char>) -> bool {
    s.len() >= 3 && s[s.len() - 1] == '`' && s[s.len() - 2] == '`' && s[s.len() - 3] == '`'
}

/// An input asks for more lines exactly when its last character is a
/// backslash, or when it opens a code fence of three backticks that it does
/// not close: a backslash at the end always continues the input, whatever
/// stands before it.
pub proof fn law_incomplete_input(input: Seq<char>)
    ensures
        input.len() > 0 && input[input.len() - 1] == '\\' ==> needs_more_lines(input),
        opens_fence(input) && !closes_fence(input) ==> needs_more_lines(input),
        needs_more_lines(input) <==> (input.len() > 0 && input[input.len() - 1] == '\\') || (opens_fence(
            input,
        ) && !closes_fence(input)),
{
    reveal_strlit("```");
    reveal_strlit("\\");
    assert("```"@ =~= seq!['`', '`', '`']);
    assert("\\"@ =~= seq!['\\']);
    let n = input.len() as int;
    if n >= 3 {
        assert(input.subrange(0, 3) =~= seq![input[0], input[1], input[2]]);
        assert(input.subrange(n - 3, n) =~= seq![input[n - 3], input[n - 2], input[n - 1]]);
    }
    if n >= 1 {
        assert(input.subrange(n - 1, n) =~= seq![input[n - 1]]);
        if has_suffix(input, "\\"@) {
            assert(input.subrange(n - 1, n)[0] == input[n - 1]);
        }
    }
    assert(has_prefix(input, "```"@) <==> opens_fence(input));
    assert(has_suffix(input, "```"@) <==> closes_fence(input));
    assert(has_suffix(input, "\\"@) <==> (n > 0 && input[n - 1] == '\\'));
}

impl MultiLineValidator {
    /// Whether `input` is a whole input.
    pub fn validate(&self, input: &str) -> (r: ValidationOutcome)
        ensures
            r == (if needs_more_lines(input@) {
                ValidationOutcome::Incomplete
            } else {
                ValidationOutcome::Valid
            }),
    {
        if starts_with(input, "```") && !ends_with(input, "```") {
            return ValidationOutcome::Incomplete;
        }
        if ends_with(input, "\\") {
            return ValidationOutcome::Incomplete;
        }
        ValidationOutcome::Valid
    }
}

/// The characters of `line` that come before its byte `pos`.
pub open spec fn chars_before(line: Seq<char>, pos: int) -> Seq<char> {
    vstd::utf8::decode_utf8(vstd::utf8::encode_utf8(line).subrange(0, pos))
}

/// How many characters of `p` there are up to and including its last
/// white-space character (0 when it holds none).
pub open spec fn after_last_ws(p: Seq<char>) -> nat
    decreases p.len(),
{
    if p.len() == 0 {
        0
    } else if is_white_space(p.last()) {
        p.len()
    } else {
        after_last_ws(p.drop_last())
    }
}

/// The word before byte `pos` of `line`, and the byte where it starts: what
/// follows the last white-space character before `pos` (everything before
/// `pos`, from 0, when there is none).
pub open spec fn word_before(line: Seq<char>, pos: int) -> (int, Seq<char>) {
    let p = chars_before(line, pos);
    let e = after_last_ws(p) as int;
    (vstd::utf8::encode_utf8(p.take(e)).len() as int, p.skip(e))
}

/// Calls `rustyline::completion::extract_word` with no escape character and
/// white space (`char::is_whitespace`) as break characters: it scans
/// `line[..pos]` backwards for a break character and returns the byte after it
/// with the rest of the slice, or 0 and the whole slice when there is none. The
/// position must fall on a character boundary of the line (the function slices
/// the line there).
#[verifier::external_body]
fn extract_word(line: &str, pos: usize) -> (r: (usize, String))
    requires
        vstd::utf8::is_char_boundary(line.spec_bytes(), pos as int),
    ensures
        r.0 == word_before(line@, pos as int).0,
        r.1@ == word_before(line@, pos as int).1,
{
    let (start, word) = rustyline::completion::extract_word(line, pos, None, char::is_whitespace);
    (start, word.to_owned())
}

/// Where the completions for a line come from.
#[derive(Debug)]
pub enum CompletionPlan {
    /// The slash commands: the position they replace from, and the candidates.
    Commands { start: usize, candidates: Vec<String> },
    /// The saved prompts matching `search` (the line after `@`); if none, the
    /// file paths; if none, nothing from `start`.
    Prompts { search: String, start: usize },
    /// The file paths; if none, nothing from `start`.
    Paths { start: usize },
}

/// `r` is the plan for `line` whose word before the cursor is `word`, starting
/// at byte `start`: a word starting with `/` is completed among the slash
/// commands; otherwise a line starting with `@` is matched against the saved
/// prompts, and any other line against the file paths.
pub open spec fn is_plan_for(r: CompletionPlan, line: Seq<char>, start: int, word: Seq<char>) -> bool {
    if has_prefix(word, "/"@) {
        &&& r matches CompletionPlan::Commands { start: s, candidates }
        &&& s == start
        &&& candidates@.len() == with_prefix(completion_commands(), word).len()
        &&& forall|i: int|
            0 <= i < candidates@.len() ==> (#[trigger] candidates@[i])@ == with_prefix(
                completion_commands(),
                word,
            )[i]
    } else if has_prefix(line, "@"@) {
        &&& r matches CompletionPlan::Prompts { search, start: s }
        &&& s == start
        &&& search@ == line.skip(1)
    } else {
        r matches CompletionPlan::Paths { start: s } && s == start
    }
}

/// Decides where the completions for `line` come from, given the word before
/// the cursor, `word`, which starts at byte `start`.
pub fn plan_completion(line: &str, start: usize, word: &str) -> (r: CompletionPlan)
    ensures
        is_plan_for(r, line@, start as int, word@),
{
    if starts_with(word, "/") {
        let (s, candidates) = complete_command(word, start);
        return CompletionPlan::Commands { start: s, candidates };
    }
    if starts_with(line, "@") {
        proof {
            reveal_strlit("@");
        }
        let search = substring(line, 1, line.unicode_len());
        return CompletionPlan::Prompts { search, start };
    }
    CompletionPlan::Paths { start }
}

/// Decides where the completions for `line`, with the cursor at byte `pos`,
/// come from, after finding the word before the cursor (see
/// [`plan_completion`]).
pub fn completion_plan(line: &str, pos: usize) -> (r: CompletionPlan)
    requires
        vstd::utf8::is_char_boundary(line.spec_bytes(), pos as int),
    ensures
        is_plan_for(r, line@, word_before(line@, pos as int).0, word_before(line@, pos as int).1),
{
    let (start, word) = extract_word(line, pos);
    plan_completion(line, start, word.as_str())
}

/// What to ask the prompt store for, given the text after `@`: that text, or
/// every prompt (`None`) when it is empty.
pub fn prompt_query(word: &str) -> (r: Option<String>)
    ensures
        word@.len() == 0 ==> r is None,
        word@.len() > 0 ==> (r matches Some(q) && q@ == word@),
{
    if word.is_empty() {
        None
    } else {
        Some(string_of(word))
    }
}

/// The completions for the prompt names `names`: each name after `@`.
pub fn prompt_completions(names: &Vec<String>) -> (r: Vec<String>)
    ensures
        r@.len() == names@.len(),
        forall|i: int| 0 <= i < names@.len() ==> (#[trigger] r@[i])@ == "@"@ + names@[i]@,
{
    let mut out: Vec<String> = Vec::new();
    let mut i: usize = 0;
    while i < names.len()
        invariant
            i <= names@.len(),
            out@.len() == i,
            forall|k: int| 0 <= k < i ==> (#[trigger] out@[k])@ == "@"@ + names@[k]@,
        decreases names@.len() - i,
    {
        let mut s = string_of("@");
        push_str(&mut s, names[i].as_str());
        out.push(s);
        i = i + 1;
    }
    out
}

} // verus!
