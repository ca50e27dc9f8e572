//! Command sets: one bracketed entry per outcome, each listing the solved and unsolved
//! commands with `$n` replaced by the `n`-th capture group of the capture string matched
//! against that outcome.
use vstd::prelude::*;

use crate::pattern::{
    captures, compile, error_message, group_views, regex_captures, regex_compiles, Pattern,
};
use crate::text::{
    chars_of, decimal, decimal_of, extend, extend_str, free_of, has_prefix, join, joined,
    lemma_replaced_absent, lemma_replaced_char, lemma_replaced_keeps_out, lemma_replaced_removes,
    occurs_at, replace,
    replaced, string_of, views,
};

verus! {

broadcast use vstd::string::group_string_axioms;

/// The contents of a command set, or of a builder for one.
#[verifier::ext_equal]
pub struct CommandSetFields {
    pub outcomes: Seq<Seq<char>>,
    pub solved_commands: Seq<Seq<char>>,
    pub unsolved_commands: Seq<Seq<char>>,
    pub capture_string: Seq<char>,
}

impl CommandSetFields {
    /// No outcomes, no commands and an empty capture string.
    pub open spec fn empty() -> Self {
        CommandSetFields {
            outcomes: Seq::empty(),
            solved_commands: Seq::empty(),
            unsolved_commands: Seq::empty(),
            capture_string: Seq::empty(),
        }
    }

    /// These contents with the outcomes replaced.
    pub open spec fn with_outcomes(self, outcomes: Seq<Seq<char>>) -> Self {
        CommandSetFields { outcomes, ..self }
    }

    /// These contents with the solved commands replaced.
    pub open spec fn with_solved_commands(self, solved_commands: Seq<Seq<char>>) -> Self {
        CommandSetFields { solved_commands, ..self }
    }

    /// These contents with the unsolved commands replaced.
    pub open spec fn with_unsolved_commands(self, unsolved_commands: Seq<Seq<char>>) -> Self {
        CommandSetFields { unsolved_commands, ..self }
    }

    /// These contents with the capture string replaced.
    pub open spec fn with_capture_string(self, capture_string: Seq<char>) -> Self {
        CommandSetFields { capture_string, ..self }
    }

    /// At least one solved or unsolved command.
    pub open spec fn has_commands(self) -> bool {
        self.solved_commands.len() > 0 || self.unsolved_commands.len() > 0
    }

    /// The contents from which a command set can be built.
    pub open spec fn complete(self) -> bool {
        &&& self.outcomes.len() > 0
        &&& self.capture_string.len() > 0
        &&& self.has_commands()
    }

    /// Every outcome is matched by the capture string.
    pub open spec fn all_outcomes_match(self) -> bool {
        forall|i: int|
            0 <= i < self.outcomes.len() ==> (#[trigger] regex_captures(
                self.capture_string,
                self.outcomes[i],
            )) is Some
    }

    /// The capture groups that the capture string finds in each outcome.
    pub open spec fn outcome_captures(self) -> Seq<Seq<Option<Seq<char>>>> {
        Seq::new(
            self.outcomes.len(),
            |i: int| regex_captures(self.capture_string, self.outcomes[i]).unwrap(),
        )
    }
}

/// Why a command set could not be built or generated.
#[derive(Debug)]
pub enum CommandSetError {
    /// The builder holds no outcome.
    MissingOutcome,
    /// The builder's capture string is empty.
    MissingCaptureString,
    /// The builder holds neither a solved nor an unsolved command.
    MissingCommand,
    /// The capture string is not a valid regular expression; the crate's message.
    InvalidCaptureString(String),
    /// The capture string does not match one of the outcomes.
    NoMatch,
}

impl CommandSetError {
    /// A description of the error for the user.
    pub fn message(&self) -> (m: String)
        ensures
            self matches CommandSetError::InvalidCaptureString(text) ==> m@ == text@,
            self is MissingOutcome ==> m@ == "At least one outcome must be provided"@,
            self is MissingCaptureString ==> m@ == "Capture string must be provided"@,
            self is MissingCommand ==> m@
                == "At least one solved command or unsolved command must be provided"@,
            self is NoMatch ==> m@ == "There are no matches"@,
    {
        match self {
            CommandSetError::MissingOutcome => String::from_str(
                "At least one outcome must be provided",
            ),
            CommandSetError::MissingCaptureString => String::from_str(
                "Capture string must be provided",
            ),
            CommandSetError::MissingCommand => String::from_str(
                "At least one solved command or unsolved command must be provided",
            ),
            CommandSetError::InvalidCaptureString(text) => text.clone(),
            CommandSetError::NoMatch => String::from_str("There are no matches"),
        }
    }
}

/// A command with `/` written `\`, `:` written `@`, and, for the commands `say`, `fixture`,
/// `puzzle` and `setvoice`, `,` written as a full-width comma.
pub open spec fn escaped(command: Seq<char>) -> Seq<char> {
    let t = replaced(replaced(command, "/"@, "\\"@), ":"@, "@"@);
    if has_prefix(t, "say"@) || has_prefix(t, "fixture"@) || has_prefix(t, "puzzle"@)
        || has_prefix(t, "setvoice"@) {
        replaced(t, ","@, "\u{ff0c}"@)
    } else {
        t
    }
}

/// `text` with `$i` replaced by capture group `i`, for each group from `i` on that took
/// part in the match, one group after the other.
pub open spec fn substituted(text: Seq<char>, groups: Seq<Option<Seq<char>>>, i: nat) -> Seq<
    char,
>
    decreases groups.len() - i,
{
    if i >= groups.len() {
        text
    } else {
        let next = match groups[i as int] {
            Some(m) => replaced(text, seq!['$'] + decimal(i), m),
            None => text,
        };
        substituted(next, groups, i + 1)
    }
}

/// One command as it stands in the command set.
pub open spec fn command_text(command: Seq<char>, groups: Seq<Option<Seq<char>>>) -> Seq<char> {
    substituted(escaped(command), groups, 1)
}

/// The commands as they stand in the command set, separated by `", "`.
pub open spec fn commands_text(commands: Seq<Seq<char>>, groups: Seq<Option<Seq<char>>>) -> Seq<
    char,
> {
    joined(Seq::new(commands.len(), |k: int| command_text(commands[k], groups)), ", "@)
}

/// The entry of one outcome: `[outcome]`, `[outcome: solved]` or
/// `[outcome: solved / unsolved]`.
pub open spec fn entry(outcome: Seq<char>, solved: Seq<char>, unsolved: Seq<char>) -> Seq<char> {
    if solved.len() == 0 && unsolved.len() == 0 {
        "["@ + outcome + "]"@
    } else if unsolved.len() == 0 {
        "["@ + outcome + ": "@ + solved + "]"@
    } else {
        "["@ + outcome + ": "@ + solved + " / "@ + unsolved + "]"@
    }
}

/// The command set text for the given contents, outcome `i` having the capture groups
/// `groups[i]`: the entries of the outcomes, in order, separated by `", "`.
pub open spec fn rendered(f: CommandSetFields, groups: Seq<Seq<Option<Seq<char>>>>) -> Seq<char> {
    joined(
        Seq::new(
            f.outcomes.len(),
            |i: int|
                entry(
                    f.outcomes[i],
                    commands_text(f.solved_commands, groups[i]),
                    commands_text(f.unsolved_commands, groups[i]),
                ),
        ),
        ", "@,
    )
}

/// A set of outcomes, commands and a capture string, checked by `CommandSetBuilder::build`.
#[derive(Debug)]
pub struct CommandSet {
    outcomes: Vec<String>,
    solved_commands: Vec<String>,
    unsolved_commands: Vec<String>,
    capture_string: String,
}

impl View for CommandSet {
    type V = CommandSetFields;

    closed spec fn view(&self) -> CommandSetFields {
        CommandSetFields {
            outcomes: views(self.outcomes@),
            solved_commands: views(self.solved_commands@),
            unsolved_commands: views(self.unsolved_commands@),
            capture_string: self.capture_string@,
        }
    }
}

/// A command with its escapes applied.
fn escape_command(command: &str) -> (t: Vec<char>)
    ensures
        t@ == escaped(command@),
{
    proof {
        reveal_strlit("/");
        reveal_strlit(":");
        reveal_strlit(",");
    }
    let c = chars_of(command);
    let t = replace(&c, &chars_of("/"), &chars_of("\\"));
    let t = replace(&t, &chars_of(":"), &chars_of("@"));
    assert(t@.skip(0) =~= t@);
    if occurs_at(&t, 0, &chars_of("say")) || occurs_at(&t, 0, &chars_of("fixture"))
        || occurs_at(&t, 0, &chars_of("puzzle")) || occurs_at(&t, 0, &chars_of("setvoice")) {
        replace(&t, &chars_of(","), &chars_of("\u{ff0c}"))
    } else {
        t
    }
}

/// `text` with the capture groups substituted (see `substituted`, from group 1 on).
fn substitute_groups(text: Vec<char>, groups: &Vec<Option<String>>) -> (t: Vec<char>)
    ensures
        t@ == substituted(text@, group_views(groups@), 1),
{
    let ghost gs = group_views(groups@);
    let mut t = text;
    let mut i: usize = 1;
    if groups.len() == 0 {
        return t;
    }
    while i < groups.len()
        invariant
            1 <= i <= groups.len(),
            gs == group_views(groups@),
            substituted(t@, gs, i as nat) == substituted(text@, gs, 1),
        decreases groups.len() - i,
    {
        match &groups[i] {
            Some(m) => {
                let mut pat: Vec<char> = Vec::new();
                pat.push('$');
                let digits = decimal_of(i as u64);
                extend(&mut pat, &digits);
                let with = chars_of(m.as_str());
                assert(pat@ =~= seq!['$'] + decimal(i as nat));
                t = replace(&t, &pat, &with);
            },
            None => {},
        }
        i = i + 1;
    }
    t
}

/// The commands as they stand in the command set for the given capture groups.
pub fn replace_commands(commands: &Vec<String>, groups: &Vec<Option<String>>) -> (t: Vec<char>)
    ensures
        t@ == commands_text(views(commands@), group_views(groups@)),
{
    let ghost cs = views(commands@);
    let ghost gs = group_views(groups@);
    let mut parts: Vec<Vec<char>> = Vec::new();
    let mut k: usize = 0;
    while k < commands.len()
        invariant
            k <= commands.len(),
            cs == views(commands@),
            gs == group_views(groups@),
            parts.len() == k,
            forall|j: int| 0 <= j < k ==> #[trigger] parts@[j]@ == command_text(cs[j], gs),
        decreases commands.len() - k,
    {
        let escaped_command = escape_command(commands[k].as_str());
        parts.push(substitute_groups(escaped_command, groups));
        k = k + 1;
    }
    let t = join(&parts, &chars_of(", "));
    assert(parts@.map_values(|p: Vec<char>| p@) =~= Seq::new(
        cs.len(),
        |j: int| command_text(cs[j], gs),
    ));
    t
}

impl CommandSet {
    /// A builder with nothing in it.
    pub fn builder() -> (b: CommandSetBuilder)
        ensures
            b@ == CommandSetFields::empty(),
    {
        let b = CommandSetBuilder {
            outcomes: Vec::new(),
            solved_commands: Vec::new(),
            unsolved_commands: Vec::new(),
            capture_string: String::new(),
        };
        assert(b@ =~= CommandSetFields::empty());
        b
    }

    /// The command set text, given the capture groups of each outcome (`groups[i]` for
    /// outcome `i`).
    pub fn render(&self, groups: &Vec<Vec<Option<String>>>) -> (s: String)
        requires
            groups.len() == self@.outcomes.len(),
        ensures
            s@ == rendered(self@, Seq::new(groups.len() as nat, |i: int| group_views(groups@[i]@))),
    {
        let ghost f = self@;
        let ghost gs = Seq::new(groups.len() as nat, |i: int| group_views(groups@[i]@));
        let mut entries: Vec<Vec<char>> = Vec::new();
        let mut i: usize = 0;
        while i < self.outcomes.len()
            invariant
                i <= self.outcomes.len(),
                f == self@,
                groups.len() == self.outcomes.len(),
                gs == Seq::new(groups.len() as nat, |i: int| group_views(groups@[i]@)),
                entries.len() == i,
                forall|j: int|
                    0 <= j < i ==> #[trigger] entries@[j]@ == entry(
                        f.outcomes[j],
                        commands_text(f.solved_commands, gs[j]),
                        commands_text(f.unsolved_commands, gs[j]),
                    ),
            decreases self.outcomes.len() - i,
        {
            let solved = replace_commands(&self.solved_commands, &groups[i]);
            let unsolved = replace_commands(&self.unsolved_commands, &groups[i]);
            let mut e: Vec<char> = Vec::new();
            extend_str(&mut e, "[");
            extend_str(&mut e, self.outcomes[i].as_str());
            if solved.len() == 0 && unsolved.len() == 0 {
                extend_str(&mut e, "]");
            } else if unsolved.len() == 0 {
                extend_str(&mut e, ": ");
                extend(&mut e, &solved);
                extend_str(&mut e, "]");
            } else {
                extend_str(&mut e, ": ");
                extend(&mut e, &solved);
                extend_str(&mut e, " / ");
                extend(&mut e, &unsolved);
                extend_str(&mut e, "]");
            }
            entries.push(e);
            i = i + 1;
        }
        let out = join(&entries, &chars_of(", "));
        assert(entries@.map_values(|p: Vec<char>| p@) =~= Seq::new(
            f.outcomes.len(),
            |j: int|
                entry(
                    f.outcomes[j],
                    commands_text(f.solved_commands, gs[j]),
                    commands_text(f.unsolved_commands, gs[j]),
                ),
        ));
        string_of(&out)
    }

    /// Generates the command set text. The capture string is compiled as a regular
    /// expression and matched against each outcome; every outcome must match.
    pub fn generate(&self) -> (res: Result<String, CommandSetError>)
        ensures
            match res {
                Ok(s) => {
                    &&& regex_compiles(self@.capture_string)
                    &&& self@.all_outcomes_match()
                    &&& s@ == rendered(self@, self@.outcome_captures())
                },
                Err(CommandSetError::InvalidCaptureString(_)) => !regex_compiles(
                    self@.capture_string,
                ),
                Err(CommandSetError::NoMatch) => {
                    &&& regex_compiles(self@.capture_string)
                    &&& !self@.all_outcomes_match()
                },
                Err(_) => false,
            },
    {
        let p = match compile(self.capture_string.as_str()) {
            Ok(p) => p,
            Err(e) => {
                return Err(CommandSetError::InvalidCaptureString(error_message(&e)));
            },
        };
        let ghost f = self@;
        let mut groups: Vec<Vec<Option<String>>> = Vec::new();
        let mut i: usize = 0;
        while i < self.outcomes.len()
            invariant
                i <= self.outcomes.len(),
                f == self@,
                p@ == f.capture_string,
                regex_compiles(f.capture_string),
                groups.len() == i,
                forall|j: int|
                    0 <= j < i ==> regex_captures(f.capture_string, f.outcomes[j]) == Some(
                        group_views(#[trigger] groups@[j]@),
                    ),
            decreases self.outcomes.len() - i,
        {
            match captures(&p, self.outcomes[i].as_str()) {
                Some(g) => {
                    groups.push(g);
                },
                None => {
                    assert(regex_captures(f.capture_string, f.outcomes[i as int]) is None);
                    assert(!f.all_outcomes_match());
                    return Err(CommandSetError::NoMatch);
                },
            }
            i = i + 1;
        }
        let s = self.render(&groups);
        assert forall|j: int| 0 <= j < f.outcomes.len() implies (#[trigger] regex_captures(
            f.capture_string,
            f.outcomes[j],
        )) is Some by {
            assert(regex_captures(f.capture_string, f.outcomes[j]) == Some(
                group_views(groups@[j]@),
            ));
        }
        assert(Seq::new(groups.len() as nat, |i: int| group_views(groups@[i]@))
            =~= f.outcome_captures());
        Ok(s)
    }
}

/// Collects outcomes, commands and a capture string for a `CommandSet`.
#[derive(Debug)]
pub struct CommandSetBuilder {
    outcomes: Vec<String>,
    solved_commands: Vec<String>,
    unsolved_commands: Vec<String>,
    capture_string: String,
}

impl View for CommandSetBuilder {
    type V = CommandSetFields;

    closed spec fn view(&self) -> CommandSetFields {
        CommandSetFields {
            outcomes: views(self.outcomes@),
            solved_commands: views(self.solved_commands@),
            unsolved_commands: views(self.unsolved_commands@),
            capture_string: self.capture_string@,
        }
    }
}

impl CommandSetBuilder {
    /// Adds one outcome after those already added.
    pub fn outcome(&mut self, outcome: String) -> (res: &mut Self)
        ensures
            (*res)@ == old(self)@.with_outcomes(old(self)@.outcomes.push(outcome@)),
            *final(self) == *final(res),
    {
        self.outcomes.push(outcome);
        assert(views(self.outcomes@) =~= views(old(self).outcomes@).push(outcome@));
        self
    }

    /// Adds the outcomes, in order, after those already added.
    pub fn outcomes(&mut self, outcomes: Vec<String>) -> (res: &mut Self)
        ensures
            (*res)@ == old(self)@.with_outcomes(old(self)@.outcomes + views(outcomes@)),
            *final(self) == *final(res),
    {
        let mut outcomes = outcomes;
        let ghost added = outcomes@;
        self.outcomes.append(&mut outcomes);
        assert(views(self.outcomes@) =~= views(old(self).outcomes@) + views(added));
        self
    }

    /// Adds one solved command after those already added.
    pub fn solved_command(&mut self, solved_command: String) -> (res: &mut Self)
        ensures
            (*res)@ == old(self)@.with_solved_commands(old(self)@.solved_commands.push(solved_command@)),
            *final(self) == *final(res),
    {
        self.solved_commands.push(solved_command);
        assert(views(self.solved_commands@) =~= views(old(self).solved_commands@).push(
            solved_command@,
        ));
        self
    }

    /// Adds the solved commands, in order, after those already added.
    pub fn solved_commands(&mut self, solved_commands: Vec<String>) -> (res: &mut Self)
        ensures
            (*res)@ == old(self)@.with_solved_commands(old(self)@.solved_commands + views(solved_commands@)),
            *final(self) == *final(res),
    {
        let mut solved_commands = solved_commands;
        let ghost added = solved_commands@;
        self.solved_commands.append(&mut solved_commands);
        assert(views(self.solved_commands@) =~= views(old(self).solved_commands@) + views(added));
        self
    }

    /// Adds one unsolved command after those already added.
    pub fn unsolved_command(&mut self, unsolved_command: String) -> (res: &mut Self)
        ensures
            (*res)@ == old(self)@.with_unsolved_commands(old(self)@.unsolved_commands.push(unsolved_command@)),
            *final(self) == *final(res),
    {
        self.unsolved_commands.push(unsolved_command);
        assert(views(self.unsolved_commands@) =~= views(old(self).unsolved_commands@).push(
            unsolved_command@,
        ));
        self
    }

    /// Adds the unsolved commands, in order, after those already added.
    pub fn unsolved_commands(&mut self, unsolved_commands: Vec<String>) -> (res: &mut Self)
        ensures
            (*res)@ == old(self)@.with_unsolved_commands(old(self)@.unsolved_commands + views(unsolved_commands@)),
            *final(self) == *final(res),
    {
        let mut unsolved_commands = unsolved_commands;
        let ghost added = unsolved_commands@;
        self.unsolved_commands.append(&mut unsolved_commands);
        assert(views(self.unsolved_commands@) =~= views(old(self).unsolved_commands@) + views(
            added,
        ));
        self
    }

    /// Sets the capture string, replacing the one set before.
    pub fn capture_string(&mut self, capture_string: String) -> (res: &mut Self)
        ensures
            (*res)@ == old(self)@.with_capture_string(capture_string@),
            *final(self) == *final(res),
    {
        self.capture_string = capture_string;
        self
    }

    /// Builds the command set: there must be an outcome, a capture string and a solved or
    /// unsolved command, checked in that order.
    pub fn build(&self) -> (res: Result<CommandSet, CommandSetError>)
        ensures
            match res {
                Ok(cs) => self@.complete() && cs@ == self@,
                Err(CommandSetError::MissingOutcome) => self@.outcomes.len() == 0,
                Err(CommandSetError::MissingCaptureString) => {
                    &&& self@.outcomes.len() > 0
                    &&& self@.capture_string.len() == 0
                },
                Err(CommandSetError::MissingCommand) => {
                    &&& self@.outcomes.len() > 0
                    &&& self@.capture_string.len() > 0
                    &&& !self@.has_commands()
                },
                Err(_) => false,
            },
    {
        if self.outcomes.is_empty() {
            Err(CommandSetError::MissingOutcome)
        } else if self.capture_string.as_str().is_empty() {
            Err(CommandSetError::MissingCaptureString)
        } else if self.solved_commands.is_empty() && self.unsolved_commands.is_empty() {
            Err(CommandSetError::MissingCommand)
        } else {
            let cs = CommandSet {
                outcomes: clone_strings(&self.outcomes),
                solved_commands: clone_strings(&self.solved_commands),
                unsolved_commands: clone_strings(&self.unsolved_commands),
                capture_string: self.capture_string.clone(),
            };
            assert(cs@ =~= self@);
            Ok(cs)
        }
    }
}

/// A copy of the strings.
fn clone_strings(v: &Vec<String>) -> (c: Vec<String>)
    ensures
        c@ == v@,
{
    let mut c: Vec<String> = Vec::new();
    let mut i: usize = 0;
    while i < v.len()
        invariant
            i <= v.len(),
            c@ == v@.take(i as int),
        decreases v.len() - i,
    {
        c.push(v[i].clone());
        i = i + 1;
        assert(c@ =~= v@.take(i as int));
    }
    assert(v@.take(v.len() as int) =~= v@);
    c
}

/// A command, once escaped, holds neither `/` nor `:`, the separators of Alter Ego's
/// command syntax.
pub proof fn lemma_escaped_has_no_separators(command: Seq<char>)
    ensures
        free_of(escaped(command), '/'),
        free_of(escaped(command), ':'),
{
    reveal_strlit("/");
    reveal_strlit("\\");
    reveal_strlit(":");
    reveal_strlit("@");
    reveal_strlit(",");
    reveal_strlit("\u{ff0c}");
    let t1 = replaced(command, "/"@, "\\"@);
    assert("/"@ =~= seq!['/']);
    assert(":"@ =~= seq![':']);
    lemma_replaced_removes(command, '/', "\\"@);
    let t = replaced(t1, ":"@, "@"@);
    lemma_replaced_removes(t1, ':', "@"@);
    lemma_replaced_keeps_out(t1, ":"@, "@"@, '/');
    lemma_replaced_keeps_out(t, ","@, "\u{ff0c}"@, '/');
    lemma_replaced_keeps_out(t, ","@, "\u{ff0c}"@, ':');
}

/// The escapes of `/` and `:` change no character of a word that holds none of `/`, `:`,
/// `\\` and `@`, so a command and its partly escaped form begin with the same such words.
proof fn lemma_escapes_keep_leading_word(command: Seq<char>, t: Seq<char>, w: Seq<char>)
    requires
        t.len() == command.len(),
        forall|i: int|
            0 <= i < command.len() ==> #[trigger] t[i] == if command[i] == '/' {
                '\\'
            } else if command[i] == ':' {
                '@'
            } else {
                command[i]
            },
        free_of(w, '/'),
        free_of(w, ':'),
        free_of(w, '\\'),
        free_of(w, '@'),
    ensures
        has_prefix(t, w) == has_prefix(command, w),
{
    if has_prefix(command, w) {
        assert forall|i: int| 0 <= i < w.len() implies t.take(w.len() as int)[i] == w[i] by {
            assert(command.take(w.len() as int)[i] == w[i]);
            assert(t[i] == command[i]);
        }
        assert(t.take(w.len() as int) =~= w);
    }
    if has_prefix(t, w) {
        assert forall|i: int| 0 <= i < w.len() implies command.take(w.len() as int)[i] == w[i] by {
            assert(t.take(w.len() as int)[i] == w[i]);
            assert(t[i] == command[i]);
        }
        assert(command.take(w.len() as int) =~= w);
    }
}

/// A command that does not begin with `say`, `fixture`, `puzzle` or `setvoice` keeps its
/// commas: escaping changes only `/` into `\\` and `:` into `@`, character for character,
/// so `,` stands in the escaped command exactly where it stands in the command.
pub proof fn lemma_plain_commands_keep_commas(command: Seq<char>)
    requires
        !has_prefix(command, "say"@),
        !has_prefix(command, "fixture"@),
        !has_prefix(command, "puzzle"@),
        !has_prefix(command, "setvoice"@),
    ensures
        escaped(command).len() == command.len(),
        forall|i: int|
            0 <= i < command.len() ==> #[trigger] escaped(command)[i] == if command[i] == '/' {
                '\\'
            } else if command[i] == ':' {
                '@'
            } else {
                command[i]
            },
        forall|i: int|
            0 <= i < command.len() ==> (#[trigger] escaped(command)[i] == ',') == (command[i]
                == ','),
{
    lemma_escaped_pointwise(command);
}

/// A command that begins with `say`, `fixture`, `puzzle` or `setvoice` has, once escaped,
/// every `,` written as a full-width comma, besides the escapes of `/` and `:`, character for
/// character; no ASCII comma is left in it.
pub proof fn lemma_speaking_commands_get_full_width_commas(command: Seq<char>)
    requires
        has_prefix(command, "say"@) || has_prefix(command, "fixture"@) || has_prefix(
            command,
            "puzzle"@,
        ) || has_prefix(command, "setvoice"@),
    ensures
        escaped(command).len() == command.len(),
        forall|i: int|
            0 <= i < command.len() ==> #[trigger] escaped(command)[i] == if command[i] == '/' {
                '\\'
            } else if command[i] == ':' {
                '@'
            } else if command[i] == ',' {
                '\u{ff0c}'
            } else {
                command[i]
            },
        free_of(escaped(command), ','),
{
    lemma_escaped_pointwise(command);
}

/// What escaping does to each character of a command, and which commands have their commas
/// escaped, by the words the command itself begins with.
proof fn lemma_escaped_pointwise(command: Seq<char>)
    ensures
        ({
            let speaking = has_prefix(command, "say"@) || has_prefix(command, "fixture"@)
                || has_prefix(command, "puzzle"@) || has_prefix(command, "setvoice"@);
            &&& escaped(command).len() == command.len()
            &&& forall|i: int|
                0 <= i < command.len() ==> #[trigger] escaped(command)[i] == if command[i]
                    == '/' {
                    '\\'
                } else if command[i] == ':' {
                    '@'
                } else if command[i] == ',' && speaking {
                    '\u{ff0c}'
                } else {
                    command[i]
                }
        }),
{
    reveal_strlit("/");
    reveal_strlit("\\");
    reveal_strlit(":");
    reveal_strlit("@");
    reveal_strlit(",");
    reveal_strlit("\u{ff0c}");
    reveal_strlit("say");
    reveal_strlit("fixture");
    reveal_strlit("puzzle");
    reveal_strlit("setvoice");
    assert("/"@ =~= seq!['/']);
    assert("\\"@ =~= seq!['\\']);
    assert(":"@ =~= seq![':']);
    assert("@"@ =~= seq!['@']);
    assert(","@ =~= seq![',']);
    assert("\u{ff0c}"@ =~= seq!['\u{ff0c}']);
    assert("say"@ =~= seq!['s', 'a', 'y']);
    assert("fixture"@ =~= seq!['f', 'i', 'x', 't', 'u', 'r', 'e']);
    assert("puzzle"@ =~= seq!['p', 'u', 'z', 'z', 'l', 'e']);
    assert("setvoice"@ =~= seq!['s', 'e', 't', 'v', 'o', 'i', 'c', 'e']);
    let t1 = replaced(command, "/"@, "\\"@);
    lemma_replaced_char(command, '/', '\\');
    let t = replaced(t1, ":"@, "@"@);
    lemma_replaced_char(t1, ':', '@');
    assert forall|i: int| 0 <= i < command.len() implies #[trigger] t[i] == if command[i]
        == '/' {
        '\\'
    } else if command[i] == ':' {
        '@'
    } else {
        command[i]
    } by {
        assert(t[i] == if t1[i] == ':' { '@' } else { t1[i] });
    }
    lemma_escapes_keep_leading_word(command, t, "say"@);
    lemma_escapes_keep_leading_word(command, t, "fixture"@);
    lemma_escapes_keep_leading_word(command, t, "puzzle"@);
    lemma_escapes_keep_leading_word(command, t, "setvoice"@);
    lemma_replaced_char(t, ',', '\u{ff0c}');
}

proof fn lemma_substituted_without_placeholders(
    text: Seq<char>,
    groups: Seq<Option<Seq<char>>>,
    i: nat,
)
    requires
        free_of(text, '$'),
    ensures
        substituted(text, groups, i) == text,
    decreases groups.len() - i,
{
    if i < groups.len() {
        match groups[i as int] {
            Some(m) => {
                lemma_replaced_absent(text, seq!['$'] + decimal(i), m);
            },
            None => {},
        }
        lemma_substituted_without_placeholders(text, groups, i + 1);
    }
}

/// A command without `$` comes out the same whatever the capture groups are: only its
/// escapes are applied.
pub proof fn lemma_command_without_placeholders(
    command: Seq<char>,
    groups: Seq<Option<Seq<char>>>,
)
    requires
        free_of(command, '$'),
    ensures
        command_text(command, groups) == escaped(command),
{
    reveal_strlit("/");
    reveal_strlit("\\");
    reveal_strlit(":");
    reveal_strlit("@");
    reveal_strlit(",");
    reveal_strlit("\u{ff0c}");
    let t1 = replaced(command, "/"@, "\\"@);
    lemma_replaced_keeps_out(command, "/"@, "\\"@, '$');
    let t = replaced(t1, ":"@, "@"@);
    lemma_replaced_keeps_out(t1, ":"@, "@"@, '$');
    lemma_replaced_keeps_out(t, ","@, "\u{ff0c}"@, '$');
    lemma_substituted_without_placeholders(escaped(command), groups, 1);
}

impl Default for CommandSet {
    fn default() -> (cs: Self)
        ensures
            cs@ == CommandSetFields::empty(),
    {
        let cs = CommandSet {
            outcomes: Vec::new(),
            solved_commands: Vec::new(),
            unsolved_commands: Vec::new(),
            capture_string: String::new(),
        };
        assert(cs@ =~= CommandSetFields::empty());
        cs
    }
}

impl Default for CommandSetBuilder {
    fn default() -> (b: Self)
        ensures
            b@ == CommandSetFields::empty(),
    {
        CommandSet::builder()
    }
}

} // verus!
