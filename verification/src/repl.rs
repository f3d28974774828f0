//! The commands of an interactive replay, and what each does to the replay.
use vstd::prelude::*;

use crate::error::CpuError;
use crate::replayer::{
    cycles_increasing, missing_cycle_message, seek_index, state_display, TraceReplayer,
};
use crate::text::{
    next_word, parse_decimal, parse_error_text, reads_as_u64, trim, trimmed, u64_value, word_end,
    word_start,
};
use crate::trace::is_trace_error;

verus! {

/// A line that the user typed, read as a command.
#[derive(Debug)]
pub enum ReplCommand {
    /// An empty line: show the snapshot under the cursor.
    Show,
    /// `q`: leave.
    Quit,
    /// `n`: one snapshot forward.
    Next,
    /// `p`: one snapshot back.
    Prev,
    /// `g N`: to the snapshot of cycle `N`.
    Goto(u64),
    /// `g` without a cycle number.
    MissingCycle,
    /// `g` followed by a word that is no cycle number; the reason it is not.
    BadCycle(String),
    /// Any other word.
    Unknown(String),
}

/// What the replay answers to a command.
#[derive(Debug)]
pub enum ReplReply {
    /// Show this text: the snapshot under the cursor.
    Show(String),
    /// Tell the user this, and go on reading commands.
    Warn(String),
    /// The replay refused the request with this error; go on reading commands.
    Refused(CpuError),
    /// Stop reading commands.
    Quit,
    /// Stop reading commands, failing with this message.
    Fail(String),
}

/// The first word of `t`.
pub open spec fn first_word(t: Seq<char>) -> Seq<char> {
    t.subrange(word_start(t, 0), word_end(t, 0))
}

/// Where the second word of `t` starts (the length of `t` where there is none).
pub open spec fn second_word_start(t: Seq<char>) -> int {
    word_start(t, word_end(t, 0))
}

/// The second word of `t`.
pub open spec fn second_word(t: Seq<char>) -> Seq<char> {
    t.subrange(second_word_start(t), word_end(t, word_end(t, 0)))
}

/// `c` is how the line `line` reads: its words are separated by whitespace, an empty line
/// shows the state, `q`, `n` and `p` stand alone (further words are ignored), and `g` wants
/// a cycle number in decimal as its second word.
pub open spec fn reads_as_command(line: Seq<char>, c: ReplCommand) -> bool {
    let t = trimmed(line);
    let w = first_word(t);
    let arg = second_word(t);
    if t.len() == 0 {
        c is Show
    } else if w == seq!['q'] {
        c is Quit
    } else if w == seq!['n'] {
        c is Next
    } else if w == seq!['p'] {
        c is Prev
    } else if w == seq!['g'] {
        if second_word_start(t) == t.len() {
            c is MissingCycle
        } else if reads_as_u64(arg, 10) {
            c == ReplCommand::Goto(u64_value(arg, 10) as u64)
        } else {
            c is BadCycle
        }
    } else {
        c matches ReplCommand::Unknown(u) && u@ == w
    }
}

/// The warning for a word that is no command.
pub open spec fn unknown_command_message(word: Seq<char>) -> Seq<char> {
    "unknown command '"@ + word + "': use n, p, g <N>, q, or empty line"@
}

/// Whether `t`, a word, is the one character `c`.
fn is_single(t: &str, from: usize, to: usize, c: char) -> (b: bool)
    requires
        from <= to <= t@.len(),
    ensures
        b <==> t@.subrange(from as int, to as int) == seq![c],
{
    if from < to && to - from == 1 && t.get_char(from) == c {
        assert(t@.subrange(from as int, to as int) =~= seq![c]);
        true
    } else {
        proof {
            if to == from + 1 {
                assert(t@.subrange(from as int, to as int)[0] == t@[from as int]);
            } else {
                assert(t@.subrange(from as int, to as int).len() != 1);
            }
        }
        false
    }
}

/// Reads a line that the user typed as a command.
pub fn parse_command(line: &str) -> (c: ReplCommand)
    ensures
        reads_as_command(line@, c),
{
    let t = trim(line);
    let n = t.unicode_len();
    if n == 0 {
        return ReplCommand::Show;
    }
    let (a, b) = next_word(t, 0);
    if is_single(t, a, b, 'q') {
        return ReplCommand::Quit;
    }
    if is_single(t, a, b, 'n') {
        return ReplCommand::Next;
    }
    if is_single(t, a, b, 'p') {
        return ReplCommand::Prev;
    }
    if is_single(t, a, b, 'g') {
        let (c, d) = next_word(t, b);
        if c == n {
            return ReplCommand::MissingCycle;
        }
        let arg = t.substring_char(c, d);
        return match parse_decimal(arg) {
            Ok(cycle) => ReplCommand::Goto(cycle),
            Err(e) => ReplCommand::BadCycle(parse_error_text(&e)),
        };
    }
    ReplCommand::Unknown(t.substring_char(a, b).to_owned())
}

impl TraceReplayer {
    /// Carries out one command of an interactive replay: moves the cursor as the command
    /// asks and answers with the state under it, or with why it could not.
    pub fn respond(&mut self, command: ReplCommand) -> (reply: ReplReply)
        ensures
            final(self).wf(),
            final(self).snapshots() == old(self).snapshots(),
            final(self).header_cycle_count() == old(self).header_cycle_count(),
            reply is Show ==> reply->Show_0@ == state_display(
                final(self).snapshots()[final(self).position() as int],
            ),
            !(reply is Show) ==> final(self).position() == old(self).position(),
            match command {
                ReplCommand::Show => reply is Show && final(self).position() == old(self).position(),
                ReplCommand::Quit => reply is Quit,
                ReplCommand::Next => if old(self).position() + 1 < old(self).snapshots().len() {
                    reply is Show && final(self).position() == old(self).position() + 1
                } else {
                    reply matches ReplReply::Refused(e) && is_trace_error(
                        e,
                        "trace cursor at end"@,
                    )
                },
                ReplCommand::Prev => if old(self).position() > 0 {
                    reply is Show && final(self).position() == old(self).position() - 1
                } else {
                    reply matches ReplReply::Refused(e) && is_trace_error(
                        e,
                        "trace cursor at beginning"@,
                    )
                },
                ReplCommand::Goto(cycle) => {
                    &&& reply is Show || reply is Refused
                    &&& reply is Show <==> seek_index(old(self).snapshots(), cycle) is Some
                    &&& reply is Show ==> final(self).position() == seek_index(
                        old(self).snapshots(),
                        cycle,
                    )->Some_0
                    &&& reply is Show ==> final(self).snapshots()[final(self).position() as int].cycle == cycle
                    &&& reply matches ReplReply::Refused(e) ==> is_trace_error(
                        e,
                        missing_cycle_message(cycle),
                    )
                    &&& cycles_increasing(old(self).snapshots()) ==> (reply is Show <==> exists|
                        i: int,
                    |
                        0 <= i < old(self).snapshots().len() && #[trigger] old(self).snapshots()[i].cycle == cycle)
                },
                ReplCommand::MissingCycle => reply matches ReplReply::Warn(m) && m@
                    == "missing cycle number"@,
                ReplCommand::BadCycle(reason) => reply matches ReplReply::Fail(m) && m@
                    == reason@,
                ReplCommand::Unknown(word) => reply matches ReplReply::Warn(m) && m@
                    == unknown_command_message(word@),
            },
    {
        proof {
            use_type_invariant(&*self);
        }
        match command {
            ReplCommand::Show => ReplReply::Show(self.state_text()),
            ReplCommand::Quit => ReplReply::Quit,
            ReplCommand::Next => match self.step_forward() {
                Ok(_) => ReplReply::Show(self.state_text()),
                Err(e) => ReplReply::Refused(e),
            },
            ReplCommand::Prev => match self.step_back() {
                Ok(_) => ReplReply::Show(self.state_text()),
                Err(e) => ReplReply::Refused(e),
            },
            ReplCommand::Goto(cycle) => match self.goto(cycle) {
                Ok(_) => ReplReply::Show(self.state_text()),
                Err(e) => ReplReply::Refused(e),
            },
            ReplCommand::MissingCycle => ReplReply::Warn("missing cycle number".to_owned()),
            ReplCommand::BadCycle(reason) => ReplReply::Fail(reason),
            ReplCommand::Unknown(word) => {
                let mut msg = "unknown command '".to_owned();
                msg.append(word.as_str());
                msg.append("': use n, p, g <N>, q, or empty line");
                ReplReply::Warn(msg)
            },
        }
    }
}

} // verus!
