//! One turn of the chat companion, as a sequence of decisions.
//!
//! The caller does the outside work: it looks things up, talks to the model
//! and shows what it is told to show. The turn decides: whether the message
//! may go to the model at all, what is shown of each piece of the reply, and
//! what the finished reply is.

use crate::llm::ollama::ChatStreamChunk;
use crate::llm::safety::{
    augmented, classify, SafetyFilter, SafetyLevel, SafetyResult, SUPPORT_RESOURCES,
};
use crate::ml::sentiment::EmotionPrediction;
use vstd::prelude::*;

verus! {

/// Entries retrieved for a turn where the caller names no limit.
pub const DEFAULT_CONTEXT_LIMIT: usize = 5;

/// Turns of chat history that a prompt looks back on.
pub const HISTORY_TURNS: usize = 10;

/// A reply in the making.
pub struct ChatTurn {
    level: SafetyLevel,
    response: String,
    finished: bool,
}

/// How a turn starts.
pub enum TurnStart {
    /// The message must not reach the model. The intervention is shown in
    /// place of a reply, and the turn is over.
    Blocked(Option<String>),
    /// The message may go to the model.
    Proceed(ChatTurn),
}

/// What to do with one piece of the model's reply.
pub struct ChunkOutcome {
    /// The texts to show, in order.
    pub emit: Vec<String>,
    /// The finished reply, to be stored, once the model is done.
    pub completed: Option<String>,
}

/// What is appended to a reply after a check that ended at `level`.
pub open spec fn support_suffix(level: SafetyLevel) -> Seq<char> {
    if level == SafetyLevel::Distress {
        "\n\n"@ + SUPPORT_RESOURCES@
    } else {
        Seq::empty()
    }
}

/// The text that `chunk` carries; nothing where it carries none.
pub open spec fn chunk_text(chunk: ChatStreamChunk) -> Seq<char> {
    match chunk.message {
        Some(text) => text@,
        None => Seq::empty(),
    }
}

/// The texts to show for `chunk` in a turn at `level`: the chunk's own text
/// where it has one, and behind the last chunk the support resources where
/// distress was found.
pub open spec fn shown(chunk: ChatStreamChunk, level: SafetyLevel) -> Seq<Seq<char>> {
    let own = match chunk.message {
        Some(text) => seq![text@],
        None => Seq::empty(),
    };
    if chunk.done && support_suffix(level).len() > 0 {
        own.push(support_suffix(level))
    } else {
        own
    }
}

/// The texts of `texts`.
pub open spec fn shown_texts(texts: Seq<String>) -> Seq<Seq<char>> {
    Seq::new(texts.len(), |i: int| texts[i]@)
}

/// The reply that a model stream amounts to: the text of its chunks up to
/// the first that is marked done.
pub open spec fn streamed(chunks: Seq<ChatStreamChunk>) -> Seq<char>
    decreases chunks.len(),
{
    if chunks.len() == 0 {
        Seq::empty()
    } else if chunks[0].done {
        chunk_text(chunks[0])
    } else {
        chunk_text(chunks[0]) + streamed(chunks.drop_first())
    }
}

/// Some chunk of `chunks` is marked done.
pub open spec fn completes(chunks: Seq<ChatStreamChunk>) -> bool {
    exists|i: int| 0 <= i < chunks.len() && (#[trigger] chunks[i]).done
}

impl ChatTurn {
    /// The safety level that the turn started at.
    pub closed spec fn level(&self) -> SafetyLevel {
        self.level
    }

    /// The reply so far.
    pub closed spec fn text(&self) -> Seq<char> {
        self.response@
    }

    /// The model is done and the reply is complete.
    pub closed spec fn is_finished(&self) -> bool {
        self.finished
    }

    /// Starts a turn: checks the message, with the emotions known for the
    /// entry, and blocks it where the check finds it unsafe.
    pub fn begin(filter: &SafetyFilter, message: &str, emotions: Option<&[EmotionPrediction]>) -> (start:
        TurnStart)
        ensures
            ({
                let verdict = classify(
                    message@,
                    match emotions {
                        Some(list) => Some(list@),
                        None => None,
                    },
                );
                match start {
                    TurnStart::Blocked(intervention) => !verdict.safe && verdict.intervention
                        == match intervention {
                        Some(text) => Some(text@),
                        None => None,
                    },
                    TurnStart::Proceed(turn) => verdict.safe && turn.level() == verdict.level
                        && turn.text() == Seq::<char>::empty() && !turn.is_finished(),
                }
            }),
    {
        let result = filter.check_with_emotions(message, emotions);
        if !result.safe {
            TurnStart::Blocked(result.intervention)
        } else {
            TurnStart::Proceed(ChatTurn::after(&result))
        }
    }

    /// A turn for a message that passed the check with `safety`.
    pub fn after(safety: &SafetyResult) -> (turn: ChatTurn)
        ensures
            turn.level() == safety.level,
            turn.text() == Seq::<char>::empty(),
            !turn.is_finished(),
    {
        ChatTurn { level: safety.level, response: String::new(), finished: false }
    }

    /// Whether the model is done.
    pub fn finished(&self) -> (done: bool)
        ensures
            done == self.is_finished(),
    {
        self.finished
    }

    /// The reply so far.
    pub fn response(&self) -> (text: &str)
        ensures
            text@ == self.text(),
    {
        self.response.as_str()
    }

    /// Takes one piece of the model's reply.
    ///
    /// The text of the piece is added to the reply and shown. With the piece
    /// that is marked done, the reply is completed: where distress was
    /// found, the support resources are appended and shown as a piece of
    /// their own. A finished turn takes nothing more.
    pub fn on_chunk(self, chunk: &ChatStreamChunk) -> (next: (ChatTurn, ChunkOutcome))
        ensures
            next.0.level() == self.level(),
            self.is_finished() ==> next.0.text() == self.text() && next.0.is_finished()
                && next.1.emit@.len() == 0 && next.1.completed is None,
            !self.is_finished() ==> next.0.is_finished() == chunk.done && shown_texts(next.1.emit@)
                == shown(*chunk, self.level()),
            !self.is_finished() && !chunk.done ==> next.0.text() == self.text() + chunk_text(*chunk)
                && next.1.completed is None,
            !self.is_finished() && chunk.done ==> next.0.text() == augmented(
                self.text() + chunk_text(*chunk),
                self.level(),
            ),
            !self.is_finished() && chunk.done ==> (next.1.completed matches Some(reply) && reply@
                == next.0.text()),
            (next.0.text(), next.0.is_finished()) == replayed(
                self.text(),
                self.is_finished(),
                self.level(),
                seq![*chunk],
            ),
    {
        let mut emit: Vec<String> = Vec::new();
        proof {
            let one = seq![*chunk];
            assert(one.drop_first() =~= Seq::empty());
            assert(one[0] == *chunk);
            reveal_with_fuel(replayed, 2);
        }
        if self.finished {
            return (self, ChunkOutcome { emit, completed: None });
        }
        let ChatTurn { level, response, finished } = self;
        let mut response = response;
        let ghost before = response@;
        if let Some(content) = &chunk.message {
            response.append(content.as_str());
            emit.push(content.clone());
        }
        assert(response@ =~= before + chunk_text(*chunk));
        let ghost own = shown_texts(emit@);
        if !chunk.done {
            assert(own =~= shown(*chunk, level));
            return (ChatTurn { level, response, finished: false }, ChunkOutcome { emit, completed: None });
        }
        match level {
            SafetyLevel::Distress => {
                let mut suffix = String::from_str("\n\n");
                suffix.append(SUPPORT_RESOURCES);
                proof {
                    reveal_strlit("\n\n");
                    assert(suffix@.len() > 0);
                }
                response.append(suffix.as_str());
                emit.push(suffix);
                assert(response@ =~= augmented(before + chunk_text(*chunk), level));
                assert(shown_texts(emit@) =~= own.push(support_suffix(level)));
            },
            _ => {},
        }
        assert(shown_texts(emit@) =~= shown(*chunk, level));
        let reply = response.clone();
        (ChatTurn { level, response, finished: true }, ChunkOutcome { emit, completed: Some(reply) })
    }
}

/// A turn that is fed a stream of chunks, one after the other, ends with the
/// reply that the stream amounts to, followed by the support resources where
/// distress was found; it is finished exactly if some chunk was marked done.
pub proof fn lemma_turn_follows_stream(level: SafetyLevel, chunks: Seq<ChatStreamChunk>)
    ensures
        completes(chunks) ==> replayed(Seq::empty(), false, level, chunks) == (
            augmented(streamed(chunks), level),
            true,
        ),
        !completes(chunks) ==> replayed(Seq::empty(), false, level, chunks) == (
            streamed(chunks),
            false,
        ),
{
    lemma_replay(Seq::empty(), level, chunks);
    assert(Seq::<char>::empty() + streamed(chunks) =~= streamed(chunks));
}

/// Text and state of a turn after it took `chunks`, as [`ChatTurn::on_chunk`]
/// changes them.
pub open spec fn replayed(
    text: Seq<char>,
    finished: bool,
    level: SafetyLevel,
    chunks: Seq<ChatStreamChunk>,
) -> (Seq<char>, bool)
    decreases chunks.len(),
{
    if chunks.len() == 0 {
        (text, finished)
    } else if finished {
        replayed(text, true, level, chunks.drop_first())
    } else if chunks[0].done {
        replayed(
            augmented(text + chunk_text(chunks[0]), level),
            true,
            level,
            chunks.drop_first(),
        )
    } else {
        replayed(text + chunk_text(chunks[0]), false, level, chunks.drop_first())
    }
}

proof fn lemma_replay_finished(text: Seq<char>, level: SafetyLevel, chunks: Seq<ChatStreamChunk>)
    ensures
        replayed(text, true, level, chunks) == (text, true),
    decreases chunks.len(),
{
    if chunks.len() > 0 {
        lemma_replay_finished(text, level, chunks.drop_first());
    }
}

proof fn lemma_replay(text: Seq<char>, level: SafetyLevel, chunks: Seq<ChatStreamChunk>)
    ensures
        completes(chunks) ==> replayed(text, false, level, chunks) == (
            augmented(text + streamed(chunks), level),
            true,
        ),
        !completes(chunks) ==> replayed(text, false, level, chunks) == (
            text + streamed(chunks),
            false,
        ),
    decreases chunks.len(),
{
    if chunks.len() == 0 {
        assert(text + streamed(chunks) =~= text);
    } else if chunks[0].done {
        lemma_replay_finished(augmented(text + chunk_text(chunks[0]), level), level, chunks.drop_first());
    } else {
        let rest = chunks.drop_first();
        lemma_replay(text + chunk_text(chunks[0]), level, rest);
        assert(text + chunk_text(chunks[0]) + streamed(rest) =~= text + streamed(chunks));
        if completes(chunks) {
            let i = choose|i: int| 0 <= i < chunks.len() && (#[trigger] chunks[i]).done;
            assert(rest[i - 1].done);
        } else {
            assert forall|i: int| 0 <= i < rest.len() implies !(#[trigger] rest[i]).done by {
                assert(rest[i] == chunks[i + 1]);
            }
        }
    }
}

} // verus!
