//! Chunking of long entries for finer-grained semantic retrieval.
//!
//! A long text is cut at sentence boundaries; the sentences are packed
//! greedily into chunks of about `max_chars` characters, and each new chunk
//! starts with the last `overlap_chars` characters of the chunk before it.

use crate::db::vectors::ChunkData;
use crate::text::{
    char_count, from_chars, lemma_occurs_at_end, lemma_occurs_in_longer, occurs_in, regex_pieces,
    regex_split, to_chars, trim, trimmed, views,
};
use vstd::prelude::*;

verus! {

/// Where sentences end: closing punctuation followed by whitespace, or a
/// blank line.
pub const SENTENCE_BOUNDARY: &'static str = "(?:[.!?]\\s+|\\n\\n+)";

/// Minimum character count to trigger chunking (roughly 100+ words).
pub const CHUNK_THRESHOLD_CHARS: usize = 500;

/// Target chunk size in characters (roughly 100-125 words).
pub const CHUNK_SIZE_CHARS: usize = 500;

/// Overlap between chunks for context continuity.
pub const CHUNK_OVERLAP_CHARS: usize = 100;

/// The state of packing: the chunks emitted and the chunk being filled.
pub struct Packing {
    pub chunks: Seq<Seq<char>>,
    pub current: Seq<char>,
}

/// `c` closes a sentence.
pub open spec fn ends_sentence(c: char) -> bool {
    c == '.' || c == '!' || c == '?'
}

/// `sentence` with a full stop behind it, unless it ends in closing
/// punctuation already.
pub open spec fn punctuated(sentence: Seq<char>) -> Seq<char> {
    if sentence.len() > 0 && ends_sentence(sentence.last()) {
        sentence
    } else {
        sentence.push('.')
    }
}

/// The sentences that the pieces of a text give: each piece trimmed and
/// punctuated, empty pieces left out.
pub open spec fn sentences_of(pieces: Seq<Seq<char>>) -> Seq<Seq<char>>
    decreases pieces.len(),
{
    if pieces.len() == 0 {
        Seq::empty()
    } else if trimmed(pieces.last()).len() == 0 {
        sentences_of(pieces.drop_last())
    } else {
        sentences_of(pieces.drop_last()).push(punctuated(trimmed(pieces.last())))
    }
}

/// The last `n` characters of `text`; all of it where it has no more.
pub open spec fn tail(text: Seq<char>, n: nat) -> Seq<char> {
    if text.len() > n {
        text.subrange(text.len() - n, text.len() as int)
    } else {
        text
    }
}

/// The chunk that follows a chunk `emitted`, before its first sentence: the
/// overlap and a space, or nothing where there is no overlap.
pub open spec fn seed(emitted: Seq<char>, overlap_chars: nat) -> Seq<char> {
    if tail(emitted, overlap_chars).len() > 0 {
        tail(emitted, overlap_chars).push(' ')
    } else {
        Seq::empty()
    }
}

/// `sentence` does not fit behind `current`: with a space between them the
/// chunk would exceed `max_chars`. An empty chunk takes any sentence.
pub open spec fn overflows(current: Seq<char>, sentence: Seq<char>, max_chars: nat) -> bool {
    current.len() > 0 && current.len() + 1 + sentence.len() > max_chars
}

/// `sentence` put behind `current`, after a space where `current` is not
/// empty.
pub open spec fn extended(current: Seq<char>, sentence: Seq<char>) -> Seq<char> {
    if current.len() == 0 {
        sentence
    } else {
        current.push(' ') + sentence
    }
}

/// Packing after one more sentence: where the sentence does not fit, the
/// chunk being filled is emitted and a new one is seeded from it.
pub open spec fn pack_step(state: Packing, sentence: Seq<char>, max_chars: nat, overlap_chars: nat) -> Packing {
    if overflows(state.current, sentence, max_chars) {
        Packing {
            chunks: state.chunks.push(state.current),
            current: extended(seed(state.current, overlap_chars), sentence),
        }
    } else {
        Packing { chunks: state.chunks, current: extended(state.current, sentence) }
    }
}

/// Packing after all of `sentences`.
pub open spec fn packing(sentences: Seq<Seq<char>>, max_chars: nat, overlap_chars: nat) -> Packing
    decreases sentences.len(),
{
    if sentences.len() == 0 {
        Packing { chunks: Seq::empty(), current: Seq::empty() }
    } else {
        pack_step(
            packing(sentences.drop_last(), max_chars, overlap_chars),
            sentences.last(),
            max_chars,
            overlap_chars,
        )
    }
}

/// The chunks that `sentences` are packed into.
pub open spec fn packed(sentences: Seq<Seq<char>>, max_chars: nat, overlap_chars: nat) -> Seq<
    Seq<char>,
> {
    let state = packing(sentences, max_chars, overlap_chars);
    if state.current.len() > 0 {
        state.chunks.push(state.current)
    } else {
        state.chunks
    }
}

/// The sentences of `text`.
pub open spec fn text_sentences(text: Seq<char>) -> Seq<Seq<char>> {
    sentences_of(regex_pieces(SENTENCE_BOUNDARY@, text))
}

/// The chunks of `text`: the text itself where it is short or has no
/// sentence, else its sentences packed.
pub open spec fn chunked(text: Seq<char>, max_chars: nat, overlap_chars: nat) -> Seq<Seq<char>> {
    if text.len() <= max_chars || text_sentences(text).len() == 0 {
        seq![text]
    } else {
        packed(text_sentences(text), max_chars, overlap_chars)
    }
}

/// The greater of two numbers.
pub open spec fn larger(a: nat, b: nat) -> nat {
    if a < b {
        b
    } else {
        a
    }
}

/// No sentence of `sentences` is empty.
pub open spec fn nonempty(sentences: Seq<Seq<char>>) -> bool {
    forall|i: int| 0 <= i < sentences.len() ==> (#[trigger] sentences[i]).len() > 0
}

/// The sentences that text pieces give are never empty.
pub proof fn lemma_sentences_nonempty(pieces: Seq<Seq<char>>)
    ensures
        nonempty(sentences_of(pieces)),
    decreases pieces.len(),
{
    if pieces.len() > 0 {
        lemma_sentences_nonempty(pieces.drop_last());
    }
}

proof fn lemma_packing_nonempty(sentences: Seq<Seq<char>>, max_chars: nat, overlap_chars: nat)
    requires
        nonempty(sentences),
    ensures
        sentences.len() > 0 ==> packing(sentences, max_chars, overlap_chars).current.len() > 0,
    decreases sentences.len(),
{
    if sentences.len() > 0 {
        assert(sentences.last() == sentences[sentences.len() - 1]);
    }
}

/// Packing never gives an empty list for a text that has a sentence.
pub proof fn lemma_packed_nonempty(sentences: Seq<Seq<char>>, max_chars: nat, overlap_chars: nat)
    requires
        nonempty(sentences),
        sentences.len() > 0,
    ensures
        packed(sentences, max_chars, overlap_chars).len() > 0,
{
    lemma_packing_nonempty(sentences, max_chars, overlap_chars);
}

proof fn lemma_packing_lengths(
    sentences: Seq<Seq<char>>,
    max_chars: nat,
    overlap_chars: nat,
    longest: nat,
)
    requires
        forall|i: int| 0 <= i < sentences.len() ==> (#[trigger] sentences[i]).len() <= longest,
    ensures
        packing(sentences, max_chars, overlap_chars).current.len() <= larger(
            max_chars,
            overlap_chars + 2 + longest,
        ),
        forall|k: int|
            0 <= k < packing(sentences, max_chars, overlap_chars).chunks.len() ==> (
            #[trigger] packing(sentences, max_chars, overlap_chars).chunks[k]).len() <= larger(
                max_chars,
                overlap_chars + 2 + longest,
            ),
    decreases sentences.len(),
{
    if sentences.len() > 0 {
        let front = sentences.drop_last();
        assert forall|i: int| 0 <= i < front.len() implies (#[trigger] front[i]).len()
            <= longest by {
            assert(front[i] == sentences[i]);
        }
        lemma_packing_lengths(front, max_chars, overlap_chars, longest);
        assert(sentences.last() == sentences[sentences.len() - 1]);
        let before = packing(front, max_chars, overlap_chars);
        let after = packing(sentences, max_chars, overlap_chars);
        assert forall|k: int| 0 <= k < after.chunks.len() implies (#[trigger] after.chunks[k]).len()
            <= larger(max_chars, overlap_chars + 2 + longest) by {
            if k < before.chunks.len() {
                assert(after.chunks[k] == before.chunks[k]);
            }
        }
    }
}

/// No chunk is longer than `max_chars`, unless it starts a new chunk with a
/// sentence that the overlap, two spaces and the sentence itself carry past
/// it: with sentences of at most `longest` characters, every chunk has at
/// most `max(max_chars, overlap_chars + 2 + longest)` characters.
pub proof fn lemma_chunk_lengths(
    sentences: Seq<Seq<char>>,
    max_chars: nat,
    overlap_chars: nat,
    longest: nat,
)
    requires
        forall|i: int| 0 <= i < sentences.len() ==> (#[trigger] sentences[i]).len() <= longest,
    ensures
        forall|k: int|
            0 <= k < packed(sentences, max_chars, overlap_chars).len() ==> (#[trigger] packed(
                sentences,
                max_chars,
                overlap_chars,
            )[k]).len() <= larger(max_chars, overlap_chars + 2 + longest),
{
    lemma_packing_lengths(sentences, max_chars, overlap_chars, longest);
    let state = packing(sentences, max_chars, overlap_chars);
    let out = packed(sentences, max_chars, overlap_chars);
    assert forall|k: int| 0 <= k < out.len() implies (#[trigger] out[k]).len() <= larger(
        max_chars,
        overlap_chars + 2 + longest,
    ) by {
        if k < state.chunks.len() {
            assert(out[k] == state.chunks[k]);
        }
    }
}

/// Where every sentence leaves room for two spaces within `max_chars`, no
/// chunk is longer than `max_chars + overlap_chars`.
pub proof fn lemma_chunks_within_limit(sentences: Seq<Seq<char>>, max_chars: nat, overlap_chars: nat)
    requires
        forall|i: int| 0 <= i < sentences.len() ==> (#[trigger] sentences[i]).len() + 2 <= max_chars,
    ensures
        forall|k: int|
            0 <= k < packed(sentences, max_chars, overlap_chars).len() ==> (#[trigger] packed(
                sentences,
                max_chars,
                overlap_chars,
            )[k]).len() <= max_chars + overlap_chars,
{
    let longest = (max_chars - 2) as nat;
    assert forall|i: int| 0 <= i < sentences.len() implies (#[trigger] sentences[i]).len()
        <= longest by {
        assert(sentences[i].len() + 2 <= max_chars);
    }
    lemma_chunk_lengths(sentences, max_chars, overlap_chars, longest);
}

/// `part` occurs in a chunk of `chunks` or in `current`.
spec fn held(part: Seq<char>, chunks: Seq<Seq<char>>, current: Seq<char>) -> bool {
    occurs_in(part, current) || exists|k: int|
        0 <= k < chunks.len() && occurs_in(part, #[trigger] chunks[k])
}

proof fn lemma_packing_holds_sentences(
    sentences: Seq<Seq<char>>,
    max_chars: nat,
    overlap_chars: nat,
    i: int,
)
    requires
        0 <= i < sentences.len(),
    ensures
        held(
            sentences[i],
            packing(sentences, max_chars, overlap_chars).chunks,
            packing(sentences, max_chars, overlap_chars).current,
        ),
    decreases sentences.len(),
{
    let front = sentences.drop_last();
    let last = sentences.last();
    let before = packing(front, max_chars, overlap_chars);
    let after = packing(sentences, max_chars, overlap_chars);
    let start = if overflows(before.current, last, max_chars) {
        seed(before.current, overlap_chars)
    } else {
        before.current
    };
    assert(after.current == extended(start, last));
    if i == sentences.len() - 1 {
        if start.len() == 0 {
            lemma_occurs_at_end(Seq::empty(), last);
            assert(Seq::<char>::empty() + last =~= last);
        } else {
            lemma_occurs_at_end(start.push(' '), last);
        }
    } else {
        assert(front[i] == sentences[i]);
        lemma_packing_holds_sentences(front, max_chars, overlap_chars, i);
        let part = sentences[i];
        if occurs_in(part, before.current) {
            if overflows(before.current, last, max_chars) {
                assert(after.chunks[before.chunks.len() as int] == before.current);
            } else {
                if before.current.len() == 0 {
                    let at = choose|at: int|
                        0 <= at && at + part.len() <= before.current.len()
                            && #[trigger] before.current.subrange(at, at + part.len()) == part;
                    assert(part.len() == 0);
                    assert(after.current.subrange(0int, 0int + part.len()) =~= part);
                } else {
                    lemma_occurs_in_longer(part, before.current, seq![' '] + last);
                    assert(before.current + (seq![' '] + last) =~= before.current.push(' ') + last);
                }
            }
        } else {
            let k = choose|k: int|
                0 <= k < before.chunks.len() && occurs_in(part, #[trigger] before.chunks[k]);
            assert(after.chunks[k] == before.chunks[k]);
        }
    }
}

/// Packing loses nothing: every sentence occurs whole in some chunk.
pub proof fn lemma_every_sentence_is_packed(
    sentences: Seq<Seq<char>>,
    max_chars: nat,
    overlap_chars: nat,
    i: int,
)
    requires
        0 <= i < sentences.len(),
        nonempty(sentences),
    ensures
        exists|k: int|
            0 <= k < packed(sentences, max_chars, overlap_chars).len() && occurs_in(
                sentences[i],
                #[trigger] packed(sentences, max_chars, overlap_chars)[k],
            ),
{
    lemma_packing_holds_sentences(sentences, max_chars, overlap_chars, i);
    lemma_packing_nonempty(sentences, max_chars, overlap_chars);
    let state = packing(sentences, max_chars, overlap_chars);
    let out = packed(sentences, max_chars, overlap_chars);
    if occurs_in(sentences[i], state.current) {
        assert(out[state.chunks.len() as int] == state.current);
    } else {
        let k = choose|k: int|
            0 <= k < state.chunks.len() && occurs_in(sentences[i], #[trigger] state.chunks[k]);
        assert(out[k] == state.chunks[k]);
    }
}

/// A text longer than `max_chars` that has a sentence, and whose sentences
/// each leave room for two spaces within `max_chars`, has no chunk longer
/// than `max_chars + overlap_chars`.
pub proof fn lemma_chunking_within_limit(text: Seq<char>, max_chars: nat, overlap_chars: nat)
    requires
        text.len() > max_chars,
        text_sentences(text).len() > 0,
        forall|i: int|
            0 <= i < text_sentences(text).len() ==> (#[trigger] text_sentences(text)[i]).len() + 2
                <= max_chars,
    ensures
        forall|k: int|
            0 <= k < chunked(text, max_chars, overlap_chars).len() ==> (#[trigger] chunked(
                text,
                max_chars,
                overlap_chars,
            )[k]).len() <= max_chars + overlap_chars,
{
    lemma_chunks_within_limit(text_sentences(text), max_chars, overlap_chars);
    assert(chunked(text, max_chars, overlap_chars) == packed(
        text_sentences(text),
        max_chars,
        overlap_chars,
    ));
}

/// The chunks of a text longer than `max_chars` cover it: each of its
/// sentences occurs whole in some chunk.
pub proof fn lemma_chunking_covers_text(text: Seq<char>, max_chars: nat, overlap_chars: nat, i: int)
    requires
        text.len() > max_chars,
        0 <= i < text_sentences(text).len(),
    ensures
        exists|k: int|
            0 <= k < chunked(text, max_chars, overlap_chars).len() && occurs_in(
                text_sentences(text)[i],
                #[trigger] chunked(text, max_chars, overlap_chars)[k],
            ),
{
    lemma_sentences_nonempty(regex_pieces(SENTENCE_BOUNDARY@, text));
    lemma_every_sentence_is_packed(text_sentences(text), max_chars, overlap_chars, i);
    let chunks = packed(text_sentences(text), max_chars, overlap_chars);
    assert(chunked(text, max_chars, overlap_chars) == chunks);
    let k = choose|k: int|
        0 <= k < chunks.len() && occurs_in(text_sentences(text)[i], #[trigger] chunks[k]);
    assert(occurs_in(text_sentences(text)[i], chunked(text, max_chars, overlap_chars)[k]));
}

/// The sentences that the pieces of a text give: each piece is trimmed,
/// empty pieces are left out, and a piece that does not end in closing
/// punctuation gets a full stop.
pub fn sentences_from(pieces: &Vec<String>) -> (sentences: Vec<String>)
    ensures
        views(sentences@) == sentences_of(views(pieces@)),
{
    let mut sentences: Vec<String> = Vec::new();
    let mut i: usize = 0;
    assert(views(pieces@).take(0) =~= Seq::empty());
    while i < pieces.len()
        invariant
            i <= pieces.len(),
            views(sentences@) == sentences_of(views(pieces@).take(i as int)),
        decreases pieces.len() - i,
    {
        let ghost upto = views(pieces@).take(i + 1);
        assert(upto.drop_last() =~= views(pieces@).take(i as int));
        assert(upto.last() == pieces@[i as int]@);
        let mut sentence = trim(pieces[i].as_str());
        let chars = to_chars(sentence.as_str());
        let n = chars.len();
        if n > 0 {
            let last = chars[n - 1];
            if !(last == '.' || last == '!' || last == '?') {
                sentence.append(".");
                proof {
                    reveal_strlit(".");
                    assert(sentence@ =~= chars@.push('.'));
                }
            }
            let ghost before = sentences@;
            sentences.push(sentence);
            assert(views(sentences@) =~= views(before).push(punctuated(trimmed(upto.last()))));
        }
        i += 1;
    }
    assert(views(pieces@).take(pieces.len() as int) =~= views(pieces@));
    sentences
}

/// The sentences of `text`: its pieces between sentence boundaries, trimmed
/// and punctuated.
pub fn split_sentences(text: &str) -> (sentences: Vec<String>)
    ensures
        views(sentences@) == text_sentences(text@),
{
    let pieces = regex_split(SENTENCE_BOUNDARY, text);
    sentences_from(&pieces)
}

fn append_chars(target: &mut Vec<char>, source: &Vec<char>, from: usize)
    requires
        from <= source.len(),
    ensures
        final(target)@ == old(target)@ + source@.subrange(from as int, source.len() as int),
{
    let mut i: usize = from;
    while i < source.len()
        invariant
            from <= i <= source.len(),
            target@ == old(target)@ + source@.subrange(from as int, i as int),
        decreases source.len() - i,
    {
        target.push(source[i]);
        assert(target@ =~= old(target)@ + source@.subrange(from as int, i + 1));
        i += 1;
    }
}

/// Pack sentences greedily into chunks.
///
/// A sentence goes behind the chunk being filled, after a space. Where that
/// would carry the chunk past `max_chars`, the chunk is emitted first and a
/// new one begins with the last `overlap_chars` characters of the emitted
/// chunk. A sentence longer than `max_chars` is kept whole.
pub fn pack_sentences(sentences: &Vec<String>, max_chars: usize, overlap_chars: usize) -> (chunks:
    Vec<String>)
    ensures
        views(chunks@) == packed(views(sentences@), max_chars as nat, overlap_chars as nat),
{
    let ghost all = views(sentences@);
    let mut chunks: Vec<String> = Vec::new();
    let mut current: Vec<char> = Vec::new();
    let mut i: usize = 0;
    assert(all.take(0) =~= Seq::empty());
    while i < sentences.len()
        invariant
            i <= sentences.len(),
            all == views(sentences@),
            views(chunks@) == packing(
                all.take(i as int),
                max_chars as nat,
                overlap_chars as nat,
            ).chunks,
            current@ == packing(all.take(i as int), max_chars as nat, overlap_chars as nat).current,
        decreases sentences.len() - i,
    {
        let ghost upto = all.take(i + 1);
        assert(upto.drop_last() =~= all.take(i as int));
        assert(upto.last() == sentences@[i as int]@);
        let sentence = to_chars(sentences[i].as_str());
        let filled = current.len();
        if filled > 0 && (filled > max_chars || sentence.len() >= max_chars - filled) {
            let ghost emitted = current@;
            let ghost before = chunks@;
            assert(current@.subrange(0, filled as int) =~= current@);
            chunks.push(from_chars(&current, 0, filled));
            assert(views(chunks@) =~= views(before).push(emitted));
            let mut next: Vec<char> = Vec::new();
            let from = if filled > overlap_chars {
                filled - overlap_chars
            } else {
                0
            };
            append_chars(&mut next, &current, from);
            assert(next@ =~= tail(emitted, overlap_chars as nat));
            if next.len() > 0 {
                next.push(' ');
            }
            current = next;
        }
        if current.len() > 0 {
            current.push(' ');
        }
        append_chars(&mut current, &sentence, 0);
        assert(sentence@.subrange(0, sentence.len() as int) =~= sentence@);
        i += 1;
    }
    assert(all.take(sentences.len() as int) =~= all);
    if current.len() > 0 {
        let ghost before = chunks@;
        assert(current@.subrange(0, current.len() as int) =~= current@);
        chunks.push(from_chars(&current, 0, current.len()));
        assert(views(chunks@) =~= views(before).push(current@));
    }
    chunks
}

/// Chunk text into smaller segments for better embedding quality.
///
/// A text of at most `max_chars` characters is one chunk. A longer text is
/// split at sentence boundaries and its sentences are packed, with overlap
/// between chunks; a text without a sentence stays one chunk. The result is
/// never empty.
pub fn chunk_text(text: &str, max_chars: usize, overlap_chars: usize) -> (chunks: Vec<String>)
    ensures
        views(chunks@) == chunked(text@, max_chars as nat, overlap_chars as nat),
        text@.len() <= max_chars ==> views(chunks@) == seq![text@],
        chunks.len() >= 1,
{
    if char_count(text) <= max_chars {
        let mut chunks: Vec<String> = Vec::new();
        chunks.push(String::from_str(text));
        assert(views(chunks@) =~= seq![text@]);
        return chunks;
    }
    let sentences = split_sentences(text);
    if sentences.len() == 0 {
        let mut chunks: Vec<String> = Vec::new();
        chunks.push(String::from_str(text));
        assert(views(chunks@) =~= seq![text@]);
        return chunks;
    }
    proof {
        lemma_sentences_nonempty(regex_pieces(SENTENCE_BOUNDARY@, text@));
        lemma_packed_nonempty(views(sentences@), max_chars as nat, overlap_chars as nat);
    }
    pack_sentences(&sentences, max_chars, overlap_chars)
}

/// The chunks to embed for an entry besides the entry itself: those of a
/// text longer than [`CHUNK_THRESHOLD_CHARS`] that falls into more than one
/// chunk, and none for any other text.
pub open spec fn chunks_to_embed(content: Seq<char>) -> Seq<Seq<char>> {
    let chunks = chunked(content, CHUNK_SIZE_CHARS as nat, CHUNK_OVERLAP_CHARS as nat);
    if content.len() > CHUNK_THRESHOLD_CHARS && chunks.len() > 1 {
        chunks
    } else {
        Seq::empty()
    }
}

/// The chunks of an entry that get embeddings of their own, for better
/// precision on long entries.
pub fn plan_chunks(content: &str) -> (chunks: Vec<String>)
    ensures
        views(chunks@) == chunks_to_embed(content@),
{
    if char_count(content) > CHUNK_THRESHOLD_CHARS {
        let chunks = chunk_text(content, CHUNK_SIZE_CHARS, CHUNK_OVERLAP_CHARS);
        if chunks.len() > 1 {
            return chunks;
        }
    }
    let none: Vec<String> = Vec::new();
    assert(views(none@) =~= Seq::empty());
    none
}

/// The chunks that have an embedding, with their texts and their places
/// among all chunks.
pub open spec fn embedded_chunks(texts: Seq<Seq<char>>, embeddings: Seq<Option<Vec<u32>>>) -> Seq<
    (nat, Seq<char>, Seq<u32>),
>
    decreases texts.len(),
{
    if texts.len() == 0 || embeddings.len() != texts.len() {
        Seq::empty()
    } else {
        let before = embedded_chunks(texts.drop_last(), embeddings.drop_last());
        match embeddings.last() {
            Some(embedding) => before.push(
                ((texts.len() - 1) as nat, texts.last(), embedding@),
            ),
            None => before,
        }
    }
}

/// Index, text and embedding of each chunk of `data`.
pub open spec fn chunk_views(data: Seq<ChunkData>) -> Seq<(nat, Seq<char>, Seq<u32>)> {
    Seq::new(
        data.len(),
        |i: int| (data[i].chunk_index as nat, data[i].chunk_text@, data[i].embedding@),
    )
}

/// Pair the chunks of an entry with their embeddings. A chunk whose
/// embedding failed is left out; the others keep their index among all
/// chunks. Lists of different lengths pair nothing.
pub fn collect_chunk_data(chunks: Vec<String>, embeddings: Vec<Option<Vec<u32>>>) -> (data: Vec<
    ChunkData,
>)
    ensures
        chunk_views(data@) == embedded_chunks(views(chunks@), embeddings@),
{
    let mut data: Vec<ChunkData> = Vec::new();
    if chunks.len() != embeddings.len() {
        assert(chunk_views(data@) =~= Seq::empty());
        return data;
    }
    let ghost texts = views(chunks@);
    let mut i: usize = 0;
    assert(texts.take(0) =~= Seq::empty());
    assert(chunk_views(data@) =~= Seq::empty());
    while i < chunks.len()
        invariant
            i <= chunks.len() == embeddings.len(),
            texts == views(chunks@),
            chunk_views(data@) == embedded_chunks(texts.take(i as int), embeddings@.take(i as int)),
        decreases chunks.len() - i,
    {
        assert(texts.take(i + 1).drop_last() =~= texts.take(i as int));
        assert(embeddings@.take(i + 1).drop_last() =~= embeddings@.take(i as int));
        if let Some(embedding) = &embeddings[i] {
            let ghost before = data@;
            data.push(
                ChunkData {
                    chunk_index: i,
                    chunk_text: chunks[i].clone(),
                    embedding: embedding.clone(),
                },
            );
            assert(chunk_views(data@) =~= chunk_views(before).push(
                (i as nat, chunks@[i as int]@, embedding@),
            ));
        }
        i += 1;
    }
    assert(texts.take(chunks.len() as int) =~= texts);
    assert(embeddings@.take(chunks.len() as int) =~= embeddings@);
    data
}

} // verus!
