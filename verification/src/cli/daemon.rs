//! The daemon's prompt: what each typed line asks for.
//!
//! The daemon splits a line into whitespace-separated words and hands them
//! here; the command that comes back is carried out against the network and
//! the storage by the daemon loop.
use vstd::prelude::*;
use vstd::string::StringExecFns;

verus! {

/// A prompt command that takes arguments.
#[derive(Debug, Clone, Copy, PartialEq, Eq, Structural)]
pub enum DaemonVerb {
    SetKey,
    Append,
    Subscribe,
    Show,
    Verify,
    Gc,
    EpochRotate,
}

/// What one line typed at the daemon's prompt asks for.
#[derive(Debug)]
pub enum DaemonCommand {
    /// A blank line.
    Nothing,
    /// `help`: list the commands.
    Help,
    /// A command given without the arguments it needs: print its usage.
    Usage(DaemonVerb),
    /// `set-key <key>`: make `key` the default encryption key.
    SetKey(String),
    /// `create`: create a chain and subscribe to it.
    Create,
    /// `append <chain_id> <data...>`: append the words after the chain id,
    /// joined by single spaces, and publish the block.
    Append { chain_id: String, data: String },
    /// `subscribe <chain_id>`.
    Subscribe(String),
    /// `list`: list the local chains.
    List,
    /// `show <chain_id>`.
    Show(String),
    /// `verify <chain_id>`.
    Verify(String),
    /// `peers`: show the connected peers.
    Peers,
    /// `gc <chain_id>`: collect the chain's garbage.
    Gc(String),
    /// `epoch-rotate <chain_id>`: rotate the chain's epoch key.
    EpochRotate(String),
    /// `exit` or `quit`: shut the daemon down.
    Exit,
    /// Any other first word.
    Unknown(String),
}

/// Whether the daemon loop goes on after a command.
#[derive(Debug, Clone, Copy, PartialEq, Eq, Structural)]
pub enum DaemonAction {
    Continue,
    Exit,
}

/// The words joined by single spaces.
pub open spec fn join_words(ws: Seq<Seq<char>>) -> Seq<char>
    decreases ws.len(),
{
    if ws.len() == 0 {
        Seq::empty()
    } else if ws.len() == 1 {
        ws[0]
    } else {
        join_words(ws.drop_last()) + " "@ + ws.last()
    }
}

/// The text of each word.
pub open spec fn word_texts(words: Seq<String>) -> Seq<Seq<char>> {
    words.map_values(|w: String| w@)
}

/// What the daemon does for a line split into `words`.
pub open spec fn daemon_command_matches(words: Seq<String>, c: DaemonCommand) -> bool {
    if words.len() == 0 {
        c is Nothing
    } else {
        let w = words[0]@;
        if w == "help"@ {
            c is Help
        } else if w == "set-key"@ {
            if words.len() < 2 {
                c == DaemonCommand::Usage(DaemonVerb::SetKey)
            } else {
                c matches DaemonCommand::SetKey(k) && k@ == words[1]@
            }
        } else if w == "create"@ {
            c is Create
        } else if w == "append"@ {
            if words.len() < 3 {
                c == DaemonCommand::Usage(DaemonVerb::Append)
            } else {
                c matches DaemonCommand::Append { chain_id, data } && chain_id@ == words[1]@
                    && data@ == join_words(word_texts(words).subrange(2, words.len() as int))
            }
        } else if w == "subscribe"@ {
            if words.len() < 2 {
                c == DaemonCommand::Usage(DaemonVerb::Subscribe)
            } else {
                c matches DaemonCommand::Subscribe(id) && id@ == words[1]@
            }
        } else if w == "list"@ {
            c is List
        } else if w == "show"@ {
            if words.len() < 2 {
                c == DaemonCommand::Usage(DaemonVerb::Show)
            } else {
                c matches DaemonCommand::Show(id) && id@ == words[1]@
            }
        } else if w == "verify"@ {
            if words.len() < 2 {
                c == DaemonCommand::Usage(DaemonVerb::Verify)
            } else {
                c matches DaemonCommand::Verify(id) && id@ == words[1]@
            }
        } else if w == "peers"@ {
            c is Peers
        } else if w == "gc"@ {
            if words.len() < 2 {
                c == DaemonCommand::Usage(DaemonVerb::Gc)
            } else {
                c matches DaemonCommand::Gc(id) && id@ == words[1]@
            }
        } else if w == "epoch-rotate"@ {
            if words.len() < 2 {
                c == DaemonCommand::Usage(DaemonVerb::EpochRotate)
            } else {
                c matches DaemonCommand::EpochRotate(id) && id@ == words[1]@
            }
        } else if w == "exit"@ || w == "quit"@ {
            c is Exit
        } else {
            c matches DaemonCommand::Unknown(u) && u@ == w
        }
    }
}

/// Whether `w` reads `lit`.
fn word_is(w: &String, lit: &str) -> (r: bool)
    ensures
        r == (w@ == lit@),
{
    let other = lit.to_owned();
    *w == other
}

/// A copy of a word.
fn copy_word(w: &String) -> (r: String)
    ensures
        r@ == w@,
{
    w.clone()
}

/// The words from index `start` on, joined by single spaces.
fn join_from(words: &Vec<String>, start: usize) -> (r: String)
    requires
        start < words@.len(),
    ensures
        r@ == join_words(word_texts(words@).subrange(start as int, words@.len() as int)),
{
    let ghost texts = word_texts(words@);
    let n = words.len();
    let mut out = copy_word(&words[start]);
    let mut i: usize = start + 1;
    assert(texts.subrange(start as int, i as int) =~= seq![texts[start as int]]);
    while i < n
        invariant
            n == words@.len(),
            start < i <= words@.len(),
            texts == word_texts(words@),
            out@ == join_words(texts.subrange(start as int, i as int)),
        decreases words@.len() - i,
    {
        out.append(" ");
        out.append(words[i].as_str());
        assert(texts.subrange(start as int, i + 1) =~= texts.subrange(start as int, i as int).push(
            texts[i as int],
        ));
        assert(texts.subrange(start as int, i + 1).drop_last() =~= texts.subrange(
            start as int,
            i as int,
        ));
        i = i + 1;
    }
    out
}

/// Reads the command in a line typed at the daemon's prompt, given as its
/// whitespace-separated words.
pub fn daemon_command(words: &Vec<String>) -> (r: DaemonCommand)
    ensures
        daemon_command_matches(words@, r),
{
    if words.len() == 0 {
        return DaemonCommand::Nothing;
    }
    let n = words.len();
    let w = &words[0];
    if word_is(w, "help") {
        DaemonCommand::Help
    } else if word_is(w, "set-key") {
        if n < 2 {
            DaemonCommand::Usage(DaemonVerb::SetKey)
        } else {
            DaemonCommand::SetKey(copy_word(&words[1]))
        }
    } else if word_is(w, "create") {
        DaemonCommand::Create
    } else if word_is(w, "append") {
        if n < 3 {
            DaemonCommand::Usage(DaemonVerb::Append)
        } else {
            DaemonCommand::Append { chain_id: copy_word(&words[1]), data: join_from(words, 2) }
        }
    } else if word_is(w, "subscribe") {
        if n < 2 {
            DaemonCommand::Usage(DaemonVerb::Subscribe)
        } else {
            DaemonCommand::Subscribe(copy_word(&words[1]))
        }
    } else if word_is(w, "list") {
        DaemonCommand::List
    } else if word_is(w, "show") {
        if n < 2 {
            DaemonCommand::Usage(DaemonVerb::Show)
        } else {
            DaemonCommand::Show(copy_word(&words[1]))
        }
    } else if word_is(w, "verify") {
        if n < 2 {
            DaemonCommand::Usage(DaemonVerb::Verify)
        } else {
            DaemonCommand::Verify(copy_word(&words[1]))
        }
    } else if word_is(w, "peers") {
        DaemonCommand::Peers
    } else if word_is(w, "gc") {
        if n < 2 {
            DaemonCommand::Usage(DaemonVerb::Gc)
        } else {
            DaemonCommand::Gc(copy_word(&words[1]))
        }
    } else if word_is(w, "epoch-rotate") {
        if n < 2 {
            DaemonCommand::Usage(DaemonVerb::EpochRotate)
        } else {
            DaemonCommand::EpochRotate(copy_word(&words[1]))
        }
    } else if word_is(w, "exit") || word_is(w, "quit") {
        DaemonCommand::Exit
    } else {
        DaemonCommand::Unknown(copy_word(w))
    }
}

/// Whether the daemon goes on after carrying out a command: only `exit`
/// and `quit` end it.
pub fn daemon_action(command: &DaemonCommand) -> (r: DaemonAction)
    ensures
        r == (if *command is Exit {
            DaemonAction::Exit
        } else {
            DaemonAction::Continue
        }),
{
    match command {
        DaemonCommand::Exit => DaemonAction::Exit,
        _ => DaemonAction::Continue,
    }
}

} // verus!
