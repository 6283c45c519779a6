//! The chat's input language: slash commands, shell escapes and prompts.
use vstd::prelude::*;
use crate::text::{
    has_prefix, push_str, spec_lowercase, spec_trim, split_ws, split_whitespace, starts_with,
    str_eq, string_of, substring, to_lowercase, trim,
};

verus! {

/// What the user asked for with one line of input.
#[derive(Debug, PartialEq, Eq)]
pub enum ChatCommand {
    Ask { prompt: String },
    Clear,
    Context { subcommand: ContextSubcommand },
    Execute { command: String },
    Usage,
    Exit,
    Help,
}

/// The subcommands of `/context`.
#[derive(Debug, PartialEq, Eq, Clone, Copy, Structural)]
pub enum ContextSubcommand {
    Show,
    Help,
}

/// A command as a mathematical value.
pub enum ChatCommandV {
    Ask { prompt: Seq<char> },
    Clear,
    Context { subcommand: ContextSubcommand },
    Execute { command: Seq<char> },
    Usage,
    Exit,
    Help,
}

impl View for ChatCommand {
    type V = ChatCommandV;

    open spec fn view(&self) -> ChatCommandV {
        match self {
            ChatCommand::Ask { prompt } => ChatCommandV::Ask { prompt: prompt@ },
            ChatCommand::Clear => ChatCommandV::Clear,
            ChatCommand::Context { subcommand } => ChatCommandV::Context { subcommand: *subcommand },
            ChatCommand::Execute { command } => ChatCommandV::Execute { command: command@ },
            ChatCommand::Usage => ChatCommandV::Usage,
            ChatCommand::Exit => ChatCommandV::Exit,
            ChatCommand::Help => ChatCommandV::Help,
        }
    }
}

/// The suggestion for an unknown command name, given in lowercase, that looks
/// like a command written as in another tool (`exit()`, `quit`, `cls`, ...).
pub open spec fn spec_alias(lowered: Seq<char>) -> Option<Seq<char>> {
    if lowered == "quit"@ || lowered == "q"@ || lowered == "exit()"@ {
        Some("Did you mean to use the command '/exit' to exit? Type '/exit' to exit."@)
    } else if lowered == "clear"@ || lowered == "cls"@ {
        Some(
            "Did you mean to use the command '/clear' to clear the conversation? Type '/clear' to clear."@,
        )
    } else if lowered == "help"@ || lowered == "?"@ {
        Some(
            "Did you mean to use the command '/help' for help? Type '/help' to see available commands and their usage."@,
        )
    } else {
        None
    }
}

/// The message for an unknown slash command named `name`.
pub open spec fn unknown_command_message(name: Seq<char>) -> Seq<char> {
    "Unknown command: '/"@ + name
        + "'. Type '/help' for a list of available commands and their usage."@
}

/// The command a slash command stands for, given its name and (if any) its
/// first argument in lowercase. An unknown name gets the suggestion for it, if
/// it is an alias, else the unknown-command message.
pub open spec fn spec_resolve(
    name: Seq<char>,
    sub: Option<Seq<char>>,
) -> Result<ChatCommandV, Seq<char>> {
    if name == "clear"@ || name == "cls"@ {
        Ok(ChatCommandV::Clear)
    } else if name == "context"@ {
        match sub {
            Some(s) => if s == "show"@ {
                Ok(ChatCommandV::Context { subcommand: ContextSubcommand::Show })
            } else {
                Ok(ChatCommandV::Context { subcommand: ContextSubcommand::Help })
            },
            None => Ok(ChatCommandV::Context { subcommand: ContextSubcommand::Help }),
        }
    } else if name == "usage"@ || name == "u"@ {
        Ok(ChatCommandV::Usage)
    } else if name == "exit"@ || name == "q"@ || name == "quit"@ {
        Ok(ChatCommandV::Exit)
    } else if name == "help"@ || name == "h"@ || name == "?"@ {
        Ok(ChatCommandV::Help)
    } else {
        match spec_alias(name) {
            Some(hint) => Err(hint),
            None => Err(unknown_command_message(name)),
        }
    }
}

/// What one line of input means: the command, or the message to show.
pub open spec fn spec_parse_command(input: Seq<char>) -> Result<ChatCommandV, Seq<char>> {
    let t = spec_trim(input);
    if has_prefix(t, "\\/"@) {
        Ok(ChatCommandV::Ask { prompt: t.skip(1) })
    } else if has_prefix(t, "/"@) {
        let parts = split_ws(t.skip(1));
        if parts.len() == 0 {
            Err("No command found"@)
        } else {
            spec_resolve(
                spec_lowercase(parts[0]),
                if parts.len() >= 2 {
                    Some(spec_lowercase(parts[1]))
                } else {
                    None
                },
            )
        }
    } else if has_prefix(t, "!"@) {
        Ok(ChatCommandV::Execute { command: t.skip(1) })
    } else {
        Ok(ChatCommandV::Ask { prompt: t })
    }
}

/// A line that, once trimmed, starts neither with `/`, nor with `\/`, nor with
/// `!` is a prompt for the model: the trimmed line itself, character for
/// character. A line starting with `\/` asks the model the line without the
/// backslash, and one starting with `!` runs the rest as a shell command.
pub proof fn law_plain_lines_are_prompts(input: Seq<char>)
    ensures
        ({
            let t = spec_trim(input);
            &&& (t.len() == 0 || (t[0] != '/' && t[0] != '!' && !(t.len() >= 2 && t[0] == '\\' && t[1]
                == '/'))) ==> spec_parse_command(input) == Ok::<ChatCommandV, Seq<char>>(
                ChatCommandV::Ask { prompt: t },
            )
            &&& (t.len() >= 2 && t[0] == '\\' && t[1] == '/') ==> spec_parse_command(input) == Ok::<
                ChatCommandV,
                Seq<char>,
            >(ChatCommandV::Ask { prompt: t.skip(1) })
            &&& (t.len() >= 1 && t[0] == '!') ==> spec_parse_command(input) == Ok::<ChatCommandV, Seq<char>>(
                ChatCommandV::Execute { command: t.skip(1) },
            )
        }),
{
    reveal_strlit("/");
    reveal_strlit("!");
    reveal_strlit("\\/");
    assert("/"@ =~= seq!['/']);
    assert("!"@ =~= seq!['!']);
    assert("\\/"@ =~= seq!['\\', '/']);
    let t = spec_trim(input);
    if t.len() >= 1 {
        assert(t.subrange(0, 1) =~= seq![t[0]]);
        if has_prefix(t, "/"@) {
            assert(t.subrange(0, 1)[0] == t[0]);
        }
        if has_prefix(t, "!"@) {
            assert(t.subrange(0, 1)[0] == t[0]);
        }
    }
    if t.len() >= 2 {
        assert(t.subrange(0, 2) =~= seq![t[0], t[1]]);
        if has_prefix(t, "\\/"@) {
            assert(t.subrange(0, 2)[0] == t[0]);
            assert(t.subrange(0, 2)[1] == t[1]);
        }
    }
}

/// The view of a parse result.
pub open spec fn command_result_view(r: Result<ChatCommand, String>) -> Result<ChatCommandV, Seq<char>> {
    match r {
        Ok(c) => Ok(c@),
        Err(m) => Err(m@),
    }
}

impl ChatCommand {
    /// Interprets one line of user input.
    pub fn parse<W>(input: &str, output: &mut W) -> (r: Result<Self, String>)
        ensures
            command_result_view(r) == spec_parse_command(input@),
            *final(output) == *old(output),
    {
        let input = trim(input);
        let input = input.as_str();
        let len = input.unicode_len();
        if starts_with(input, "\\/") {
            proof {
                reveal_strlit("\\/");
            }
            return Ok(ChatCommand::Ask { prompt: substring(input, 1, len) });
        }
        if starts_with(input, "/") {
            proof {
                reveal_strlit("/");
            }
            let command = substring(input, 1, len);
            assert(command@ == input@.skip(1));
            let parts = split_whitespace(command.as_str());
            if parts.len() == 0 {
                return Err(string_of("No command found"));
            }
            let name = to_lowercase(parts[0].as_str());
            let sub = if parts.len() >= 2 {
                Some(to_lowercase(parts[1].as_str()))
            } else {
                None
            };
            let sub_ref = match &sub {
                Some(s) => Some(s.as_str()),
                None => None,
            };
            return Self::resolve_command(name.as_str(), sub_ref);
        }
        if starts_with(input, "!") {
            proof {
                reveal_strlit("!");
            }
            return Ok(ChatCommand::Execute { command: substring(input, 1, len) });
        }
        Ok(ChatCommand::Ask { prompt: string_of(input) })
    }

    /// The command a slash command stands for, given its name and first argument
    /// (if any) in lowercase; an unknown name is answered with its alias
    /// suggestion, if any, else with the unknown-command message.
    pub fn resolve_command(name: &str, subcommand: Option<&str>) -> (r: Result<
        Self,
        String,
    >)
        ensures
            command_result_view(r) == spec_resolve(
                name@,
                match subcommand {
                    Some(s) => Some(s@),
                    None => None,
                },
            ),
    {
        if str_eq(name, "clear") || str_eq(name, "cls") {
            return Ok(ChatCommand::Clear);
        }
        if str_eq(name, "context") {
            return match subcommand {
                Some(s) => {
                    if str_eq(s, "show") {
                        Ok(ChatCommand::Context { subcommand: ContextSubcommand::Show })
                    } else {
                        Ok(ChatCommand::Context { subcommand: ContextSubcommand::Help })
                    }
                },
                None => Ok(ChatCommand::Context { subcommand: ContextSubcommand::Help }),
            };
        }
        if str_eq(name, "usage") || str_eq(name, "u") {
            return Ok(ChatCommand::Usage);
        }
        if str_eq(name, "exit") || str_eq(name, "q") || str_eq(name, "quit") {
            return Ok(ChatCommand::Exit);
        }
        if str_eq(name, "help") || str_eq(name, "h") || str_eq(name, "?") {
            return Ok(ChatCommand::Help);
        }
        if let Some(suggestion) = Self::alias_suggestion(name) {
            return Err(suggestion);
        }
        let mut message = string_of("Unknown command: '/");
        push_str(&mut message, name);
        push_str(&mut message, "'. Type '/help' for a list of available commands and their usage.");
        Err(message)
    }

    /// The suggestion for an unknown command name, given in lowercase, if it is
    /// an alias of a command.
    pub fn alias_suggestion(lowered: &str) -> (r: Option<String>)
        ensures
            match spec_alias(lowered@) {
                Some(h) => r is Some && r->0@ == h,
                None => r is None,
            },
    {
        if str_eq(lowered, "quit") || str_eq(lowered, "q") || str_eq(lowered, "exit()") {
            Some(string_of("Did you mean to use the command '/exit' to exit? Type '/exit' to exit."))
        } else if str_eq(lowered, "clear") || str_eq(lowered, "cls") {
            Some(
                string_of(
                    "Did you mean to use the command '/clear' to clear the conversation? Type '/clear' to clear.",
                ),
            )
        } else if str_eq(lowered, "help") || str_eq(lowered, "?") {
            Some(
                string_of(
                    "Did you mean to use the command '/help' for help? Type '/help' to see available commands and their usage.",
                ),
            )
        } else {
            None
        }
    }
}

} // verus!
