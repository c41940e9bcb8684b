//! The command layer consumed by the interactive UI: an input buffer, the
//! decoder that turns its text into a structured command, and the executor
//! that applies a command to the credential map.
//!
//! The decoder splits the buffer on whitespace; the first word chooses the
//! action and the remaining words are its parameters. The executor applies
//! add/edit semantics to the map; the caller persists the map afterwards
//! with an explicit save.

use vstd::prelude::*;
use crate::credmap::CredentialMap;
use crate::strutil::str_eq;

verus! {

/// Whitespace that separates command words.
pub open spec fn is_space(c: char) -> bool {
    c == ' ' || c == '\t' || c == '\n' || c == '\r'
}

/// The length of the leading run of non-space characters.
pub open spec fn word_len(s: Seq<char>) -> nat
    decreases s.len(),
{
    if s.len() == 0 {
        0
    } else if is_space(s[0]) {
        0
    } else {
        1 + word_len(s.drop_first())
    }
}

/// The leading word never runs past the end of the text.
pub proof fn lemma_word_len_le(s: Seq<char>)
    ensures
        word_len(s) <= s.len(),
    decreases s.len(),
{
    if s.len() > 0 && !is_space(s[0]) {
        lemma_word_len_le(s.drop_first());
    }
}

/// The whitespace-separated words of `s`, in order.
pub open spec fn words(s: Seq<char>) -> Seq<Seq<char>>
    decreases s.len(),
    via words_decreases
{
    if s.len() == 0 {
        Seq::empty()
    } else if is_space(s[0]) {
        words(s.drop_first())
    } else {
        seq![s.take(word_len(s) as int)] + words(s.skip(word_len(s) as int))
    }
}

#[via_fn]
proof fn words_decreases(s: Seq<char>) {
    if s.len() > 0 && !is_space(s[0]) {
        lemma_word_len_le(s);
        assert(word_len(s) >= 1);
    }
}

/// The leading word of a space-free text followed by a boundary is the text.
proof fn lemma_word_len_prefix(w: Seq<char>, t: Seq<char>)
    requires
        forall|i: int| 0 <= i < w.len() ==> !is_space(w[i]),
        t.len() == 0 || is_space(t[0]),
    ensures
        word_len(w + t) == w.len(),
    decreases w.len(),
{
    if w.len() == 0 {
        assert(w + t =~= t);
    } else {
        assert((w + t)[0] == w[0]);
        assert((w + t).drop_first() =~= w.drop_first() + t);
        lemma_word_len_prefix(w.drop_first(), t);
    }
}

/// A space-free word followed by a boundary splits off as one word.
proof fn lemma_words_of_word(w: Seq<char>, t: Seq<char>)
    requires
        w.len() > 0,
        forall|i: int| 0 <= i < w.len() ==> !is_space(w[i]),
        t.len() == 0 || is_space(t[0]),
    ensures
        words(w + t) == seq![w] + words(t),
{
    lemma_word_len_prefix(w, t);
    assert((w + t)[0] == w[0]);
    assert(!is_space((w + t)[0]));
    assert((w + t).take(word_len(w + t) as int) =~= w);
    assert((w + t).skip(word_len(w + t) as int) =~= t);
}

/// Split `s` into its whitespace-separated words.
pub fn split_words(s: &str) -> (r: Vec<String>)
    ensures
        r@.map_values(|w: String| w@) == words(s@),
{
    let n = s.unicode_len();
    let mut out: Vec<String> = Vec::new();
    let mut cur = String::new();
    let mut i: usize = 0;
    proof {
        assert(out@.map_values(|w: String| w@) =~= Seq::<Seq<char>>::empty());
        assert(cur@ + s@.skip(0) =~= s@);
    }
    while i < n
        invariant
            n == s@.len(),
            i <= n,
            forall|j: int| 0 <= j < cur@.len() ==> !is_space(cur@[j]),
            words(s@) == out@.map_values(|w: String| w@) + words(cur@ + s@.skip(i as int)),
        decreases n - i,
    {
        let ghost prev_out = out@;
        let ghost prev_cur = cur@;
        let c = s.get_char(i);
        if c == ' ' || c == '\t' || c == '\n' || c == '\r' {
            proof {
                assert(s@.skip(i as int) =~= seq![s@[i as int]] + s@.skip(i + 1 as int));
                assert(is_space(s@[i as int]));
            }
            if cur.as_str().unicode_len() > 0 {
                out.push(cur);
                cur = String::new();
                proof {
                    lemma_words_of_word(prev_cur, s@.skip(i as int));
                    assert(prev_cur + s@.skip(i as int) =~= prev_cur + (seq![s@[i as int]]
                        + s@.skip(i + 1 as int)));
                    assert((seq![s@[i as int]] + s@.skip(i + 1 as int)).drop_first() =~= s@.skip(
                        i + 1 as int,
                    ));
                    assert(words(seq![s@[i as int]] + s@.skip(i + 1 as int)) == words(
                        s@.skip(i + 1 as int),
                    ));
                    assert(out@.map_values(|w: String| w@) =~= prev_out.map_values(
                        |w: String| w@,
                    ) + seq![prev_cur]);
                    assert(cur@ + s@.skip(i + 1 as int) =~= s@.skip(i + 1 as int));
                    assert(words(s@) == out@.map_values(|w: String| w@) + words(
                        cur@ + s@.skip(i + 1 as int),
                    ));
                }
            } else {
                proof {
                    assert(prev_cur + s@.skip(i as int) =~= seq![s@[i as int]] + s@.skip(
                        i + 1 as int,
                    ));
                    assert((seq![s@[i as int]] + s@.skip(i + 1 as int)).drop_first() =~= s@.skip(
                        i + 1 as int,
                    ));
                    assert(cur@ + s@.skip(i + 1 as int) =~= s@.skip(i + 1 as int));
                    assert(words(s@) == out@.map_values(|w: String| w@) + words(
                        cur@ + s@.skip(i + 1 as int),
                    ));
                }
            }
        } else {
            crate::strutil::push_char(&mut cur, c);
            proof {
                assert(!is_space(s@[i as int]));
                assert(s@.skip(i as int) =~= seq![s@[i as int]] + s@.skip(i + 1 as int));
                assert(cur@ + s@.skip(i + 1 as int) =~= prev_cur + s@.skip(i as int));
            }
        }
        i += 1;
    }
    proof {
        assert(s@.skip(n as int) =~= Seq::<char>::empty());
        assert(cur@ + s@.skip(n as int) =~= cur@);
    }
    if cur.as_str().unicode_len() > 0 {
        let ghost prev_out = out@;
        let ghost prev_cur = cur@;
        out.push(cur);
        proof {
            lemma_words_of_word(prev_cur, Seq::<char>::empty());
            assert(prev_cur + Seq::<char>::empty() =~= prev_cur);
            assert(words(Seq::<char>::empty()) =~= Seq::<Seq<char>>::empty());
            assert(words(prev_cur) =~= seq![prev_cur]);
            assert(out@.map_values(|w: String| w@) =~= prev_out.map_values(|w: String| w@)
                + seq![prev_cur]);
            assert(out@.map_values(|w: String| w@) =~= words(s@));
        }
    } else {
        proof {
            assert(words(cur@) =~= Seq::<Seq<char>>::empty());
            assert(out@.map_values(|w: String| w@) =~= words(s@));
        }
    }
    out
}

/// What a decoded command does.
#[derive(Debug, Clone, Copy, PartialEq, Eq, Structural)]
pub enum Action {
    /// Insert or overwrite an entry.
    AddPassword,
    /// Overwrite the secret of an existing entry only.
    EditPassword,
}

/// A decoded command: the action and its parameters, in order.
#[derive(Debug)]
pub struct Command {
    pub action: Action,
    pub params: Vec<String>,
}

/// Why a command could not be decoded or executed.
#[derive(Debug, Clone, Copy, PartialEq, Eq, Structural)]
pub enum CommandError {
    /// The input holds no words at all.
    Empty,
    /// The first word names no known command.
    Unknown,
    /// The command needs an account name and a secret.
    MissingParams,
}

/// Which keys the interactive loop interprets.
#[derive(Debug, Clone, Copy, PartialEq, Eq, Structural)]
pub enum InputMode {
    /// Keys navigate the password list.
    Navigation,
    /// Keys extend the command buffer.
    Command,
}

/// The interactive state: the command buffer and the input mode.
pub struct App {
    pub input: String,
    pub input_mode: InputMode,
}

impl Default for App {
    /// An empty command buffer in navigation mode.
    fn default() -> (r: App)
        ensures
            r.input@ == Seq::<char>::empty(),
            r.input_mode == InputMode::Navigation,
    {
        App { input: String::new(), input_mode: InputMode::Navigation }
    }
}

impl App {
    /// Append `s` to the command buffer.
    pub fn add_to_input(&mut self, s: &String)
        ensures
            final(self).input@ == old(self).input@ + s@,
            final(self).input_mode == old(self).input_mode,
    {
        self.input.append(s.as_str());
    }

    /// Decode the buffer: the first word chooses the action, the remaining
    /// words are its parameters.
    pub fn decode_command(&self) -> (r: Result<Command, CommandError>)
        ensures
            match r {
                Ok(c) => words(self.input@).len() > 0 && c.params@.map_values(|w: String| w@)
                    == words(self.input@).drop_first() && ((words(self.input@)[0] == "add"@
                    && c.action == Action::AddPassword) || (words(self.input@)[0] == "edit"@
                    && c.action == Action::EditPassword)),
                Err(CommandError::Empty) => words(self.input@).len() == 0,
                Err(CommandError::Unknown) => words(self.input@).len() > 0 && words(
                    self.input@,
                )[0] != "add"@ && words(self.input@)[0] != "edit"@,
                Err(CommandError::MissingParams) => false,
            },
    {
        let ws = split_words(self.input.as_str());
        let n = ws.len();
        if n == 0 {
            proof {
                assert(words(self.input@).len() == 0);
            }
            return Err(CommandError::Empty);
        }
        proof {
            assert(ws@.map_values(|w: String| w@)[0] == ws@[0]@);
        }
        let is_add = str_eq(ws[0].as_str(), "add");
        let is_edit = if is_add {
            false
        } else {
            str_eq(ws[0].as_str(), "edit")
        };
        if !is_add && !is_edit {
            return Err(CommandError::Unknown);
        }
        let mut params: Vec<String> = Vec::new();
        let mut i: usize = 1;
        proof {
            assert(params@.map_values(|w: String| w@) =~= ws@.map_values(
                |w: String| w@,
            ).subrange(1, 1));
        }
        while i < n
            invariant
                n == ws@.len(),
                1 <= i <= n,
                params@.map_values(|w: String| w@) == ws@.map_values(|w: String| w@).subrange(
                    1,
                    i as int,
                ),
            decreases n - i,
        {
            let ghost prev = params@;
            params.push(ws[i].clone());
            proof {
                assert(ws@.map_values(|w: String| w@)[i as int] == ws@[i as int]@);
                assert(params@ =~= prev.push(ws@[i as int]));
                assert(params@.map_values(|w: String| w@) =~= prev.map_values(
                    |w: String| w@,
                ).push(ws@[i as int]@));
                assert(ws@.map_values(|w: String| w@).subrange(1, i + 1 as int)
                    =~= ws@.map_values(|w: String| w@).subrange(1, i as int).push(
                    ws@.map_values(|w: String| w@)[i as int],
                ));
                assert(params@.map_values(|w: String| w@) =~= ws@.map_values(
                    |w: String| w@,
                ).subrange(1, i + 1 as int));
            }
            i += 1;
        }
        proof {
            assert(ws@.map_values(|w: String| w@).subrange(1, n as int) =~= ws@.map_values(
                |w: String| w@,
            ).drop_first());
        }
        let action = if is_add {
            Action::AddPassword
        } else {
            Action::EditPassword
        };
        Ok(Command { action, params })
    }
}

/// Apply a decoded command to the credential map.
///
/// Add inserts or overwrites the entry for the named account; edit
/// overwrites only an existing account's secret and otherwise leaves the
/// map untouched. A command without both an account name and a secret
/// changes nothing. The caller persists the map afterwards with an explicit
/// save.
pub fn execute(command: &Command, passwords: &mut CredentialMap) -> (r: Result<
    &'static str,
    CommandError,
>)
    requires
        old(passwords).wf(),
    ensures
        final(passwords).wf(),
        command.params@.len() >= 2 <==> r is Ok,
        match r {
            Ok(msg) => (command.action == Action::AddPassword ==> final(passwords)@
                =~= old(passwords)@.insert(command.params@[0]@, command.params@[1]@) && msg@
                == "New password has been added"@) && (command.action == Action::EditPassword
                ==> msg@ == "Updated successfully"@ && (old(passwords)@.contains_key(
                command.params@[0]@,
            ) ==> final(passwords)@ =~= old(passwords)@.insert(
                command.params@[0]@,
                command.params@[1]@,
            )) && (!old(passwords)@.contains_key(command.params@[0]@) ==> *final(passwords)
                == *old(passwords))),
            Err(e) => e == CommandError::MissingParams && *final(passwords) == *old(passwords),
        },
{
    if command.params.len() < 2 {
        return Err(CommandError::MissingParams);
    }
    let name = command.params[0].clone();
    let secret = command.params[1].clone();
    match command.action {
        Action::AddPassword => {
            passwords.add(name, secret);
            Ok("New password has been added")
        },
        Action::EditPassword => {
            passwords.edit(name.as_str(), secret);
            Ok("Updated successfully")
        },
    }
}

} // verus!
