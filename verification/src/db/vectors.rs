//! The vector side of retrieval: embeddings as they are stored, and the
//! policy that turns the nearest entry vectors and chunk vectors into one
//! list of entries.
//!
//! An embedding is held as the bit patterns of its 32-bit floats, a distance
//! as the bit pattern of a non-negative 64-bit float: among non-negative
//! floats the bit patterns are ordered as the numbers are.

use crate::db::search::{distinct, hit_ids, lemma_distinct_lists_each_once, ChannelHit};
use crate::error::AppError;
use crate::text::{decimal_digits, push_decimal};
use vstd::bytes::{spec_u32_to_le_bytes, u32_to_le_bytes};
use vstd::prelude::*;

verus! {

/// Embedding dimension for the all-MiniLM-L6-v2 model.
pub const EMBEDDING_DIM: usize = 384;

/// Current embedding model version for tracking.
pub const EMBEDDING_MODEL_VERSION: &'static str = "all-MiniLM-L6-v2";

/// A chunk with its embedding for storage.
#[derive(Debug, Clone)]
pub struct ChunkData {
    pub chunk_index: usize,
    pub chunk_text: String,
    pub embedding: Vec<u32>,
}

/// Search result including chunk information.
#[derive(Debug, Clone)]
pub struct ChunkSearchResult {
    pub journal_id: String,
    pub chunk_id: String,
    pub chunk_text: String,
    pub distance: u64,
}

/// What the store knows of an entry that a vector points to.
#[derive(Debug, Clone, Copy, PartialEq, Eq, Structural)]
pub enum EntryStatus {
    /// The entry exists and is not archived.
    Active,
    /// The entry exists and is archived.
    Archived,
    /// No such entry: the vector is an orphan.
    Missing,
}

/// A neighbour as a mathematical value: an entry and its distance.
pub struct Neighbor {
    pub id: Seq<char>,
    pub distance: u64,
}

/// The message of the error for an embedding of the wrong dimension.
pub open spec fn dimension_message(what: Seq<char>, got: nat) -> Seq<char> {
    "Expected "@ + what + " of dimension "@ + decimal_digits(EMBEDDING_DIM as nat) + ", got "@
        + decimal_digits(got)
}

/// The little-endian bytes of `embedding`, four for each number.
pub open spec fn blob_of(embedding: Seq<u32>) -> Seq<u8>
    decreases embedding.len(),
{
    if embedding.len() == 0 {
        Seq::empty()
    } else {
        blob_of(embedding.drop_last()) + spec_u32_to_le_bytes(embedding.last())
    }
}

/// The neighbours that entry-level hits stand for.
pub open spec fn entry_neighbors(hits: Seq<ChannelHit>) -> Seq<Neighbor> {
    Seq::new(hits.len(), |i: int| Neighbor { id: hits[i].id@, distance: hits[i].score })
}

/// The neighbours that chunk hits stand for: each chunk gives its distance
/// to the entry it belongs to.
pub open spec fn chunk_neighbors(chunks: Seq<ChunkSearchResult>) -> Seq<Neighbor> {
    Seq::new(
        chunks.len(),
        |i: int| Neighbor { id: chunks[i].journal_id@, distance: chunks[i].distance },
    )
}

/// The ids of a list of neighbours.
pub open spec fn neighbor_ids(pool: Seq<Neighbor>) -> Seq<Seq<char>> {
    Seq::new(pool.len(), |i: int| pool[i].id)
}

/// The smallest distance that `pool` holds for `id`; `u64::MAX` where it
/// holds none.
pub open spec fn best_distance(pool: Seq<Neighbor>, id: Seq<char>) -> u64
    decreases pool.len(),
{
    if pool.len() == 0 {
        u64::MAX
    } else {
        let before = best_distance(pool.drop_last(), id);
        if pool.last().id == id && pool.last().distance < before {
            pool.last().distance
        } else {
            before
        }
    }
}

/// Each entry of `pool` once, in the order of first appearance, with the
/// smallest distance that `pool` holds for it.
pub open spec fn best_neighbors(pool: Seq<Neighbor>) -> Seq<Neighbor> {
    let ids = distinct(neighbor_ids(pool));
    Seq::new(ids.len(), |i: int| Neighbor { id: ids[i], distance: best_distance(pool, ids[i]) })
}

/// Where a neighbour at `distance` goes into `sorted`: before the first
/// neighbour that is farther away.
pub open spec fn nearest_position(sorted: Seq<Neighbor>, distance: u64) -> int
    decreases sorted.len(),
{
    if sorted.len() == 0 {
        0
    } else if sorted[0].distance > distance {
        0
    } else {
        1 + nearest_position(sorted.drop_first(), distance)
    }
}

/// `neighbors` ordered by ascending distance; neighbours at equal distance
/// keep their order.
pub open spec fn nearest_first(neighbors: Seq<Neighbor>) -> Seq<Neighbor>
    decreases neighbors.len(),
{
    if neighbors.len() == 0 {
        Seq::empty()
    } else {
        let sorted = nearest_first(neighbors.drop_last());
        sorted.insert(nearest_position(sorted, neighbors.last().distance), neighbors.last())
    }
}

/// The merged neighbours of a query: every entry that either pool lists,
/// at the smallest distance of its own vector and of its chunks' vectors,
/// nearest first.
pub open spec fn merged(entries: Seq<ChannelHit>, chunks: Seq<ChunkSearchResult>) -> Seq<Neighbor> {
    nearest_first(best_neighbors(entry_neighbors(entries) + chunk_neighbors(chunks)))
}

/// An entry with `status` takes part in a search: it exists, and it is not
/// archived unless the search includes archived entries.
pub open spec fn admitted(status: EntryStatus, include_archived: bool) -> bool {
    status == EntryStatus::Active || (include_archived && status == EntryStatus::Archived)
}

/// The neighbours of `candidates` whose entry takes part in the search, in
/// order; `statuses` gives the status of each candidate.
pub open spec fn survivors(
    candidates: Seq<Neighbor>,
    statuses: Seq<EntryStatus>,
    include_archived: bool,
) -> Seq<Neighbor>
    decreases candidates.len(),
{
    if candidates.len() == 0 || statuses.len() != candidates.len() {
        Seq::empty()
    } else {
        let before = survivors(candidates.drop_last(), statuses.drop_last(), include_archived);
        if admitted(statuses.last(), include_archived) {
            before.push(candidates.last())
        } else {
            before
        }
    }
}

/// No neighbour of `neighbors` is farther away than one behind it.
pub open spec fn ascending(neighbors: Seq<Neighbor>) -> bool {
    forall|i: int, j: int|
        0 <= i < j < neighbors.len() ==> (#[trigger] neighbors[i]).distance <= (
        #[trigger] neighbors[j]).distance
}

fn dimension_error(what: &str, got: usize) -> (error: AppError)
    ensures
        error is InvalidInput,
        error.reason() == dimension_message(what@, got as nat),
{
    let mut message = String::from_str("Expected ");
    message.append(what);
    message.append(" of dimension ");
    push_decimal(&mut message, EMBEDDING_DIM);
    message.append(", got ");
    push_decimal(&mut message, got);
    AppError::InvalidInput(message)
}

/// Accepts an embedding of [`EMBEDDING_DIM`] numbers and refuses any other
/// before it is stored.
pub fn check_embedding(embedding: &Vec<u32>) -> (result: Result<(), AppError>)
    ensures
        result is Ok <==> embedding.len() == EMBEDDING_DIM,
        result matches Err(error) ==> error is InvalidInput && error.reason() == dimension_message(
            "embedding"@,
            embedding.len() as nat,
        ),
{
    if embedding.len() != EMBEDDING_DIM {
        return Err(dimension_error("embedding", embedding.len()));
    }
    Ok(())
}

/// Accepts a query embedding of [`EMBEDDING_DIM`] numbers and refuses any
/// other before it is compared.
pub fn check_query_embedding(query_embedding: &Vec<u32>) -> (result: Result<(), AppError>)
    ensures
        result is Ok <==> query_embedding.len() == EMBEDDING_DIM,
        result matches Err(error) ==> error is InvalidInput && error.reason() == dimension_message(
            "query embedding"@,
            query_embedding.len() as nat,
        ),
{
    if query_embedding.len() != EMBEDDING_DIM {
        return Err(dimension_error("query embedding", query_embedding.len()));
    }
    Ok(())
}

/// Accepts a set of chunks where every embedding has [`EMBEDDING_DIM`]
/// numbers; otherwise reports the first chunk that has not.
pub fn check_chunk_embeddings(chunks: &Vec<ChunkData>) -> (result: Result<(), AppError>)
    ensures
        result is Ok <==> forall|i: int|
            0 <= i < chunks.len() ==> (#[trigger] chunks[i]).embedding.len() == EMBEDDING_DIM,
        result matches Err(error) ==> error is InvalidInput && exists|i: int|
            {
                &&& 0 <= i < chunks.len()
                &&& (#[trigger] chunks[i]).embedding.len() != EMBEDDING_DIM
                &&& forall|k: int|
                    0 <= k < i ==> (#[trigger] chunks[k]).embedding.len() == EMBEDDING_DIM
                &&& error.reason() == dimension_message(
                    "embedding"@,
                    chunks[i].embedding.len() as nat,
                )
            },
{
    let mut i: usize = 0;
    while i < chunks.len()
        invariant
            i <= chunks.len(),
            forall|k: int| 0 <= k < i ==> (#[trigger] chunks[k]).embedding.len() == EMBEDDING_DIM,
        decreases chunks.len() - i,
    {
        if chunks[i].embedding.len() != EMBEDDING_DIM {
            assert(chunks[i as int].embedding.len() != EMBEDDING_DIM);
            return Err(dimension_error("embedding", chunks[i].embedding.len()));
        }
        i += 1;
    }
    Ok(())
}

/// Convert an embedding to the byte blob in which it is stored.
pub fn embedding_to_blob(embedding: &Vec<u32>) -> (blob: Vec<u8>)
    ensures
        blob@ == blob_of(embedding@),
        blob.len() == 4 * embedding.len(),
{
    let mut blob: Vec<u8> = Vec::new();
    let mut i: usize = 0;
    while i < embedding.len()
        invariant
            i <= embedding.len(),
            blob@ == blob_of(embedding@.take(i as int)),
            blob.len() == 4 * i,
        decreases embedding.len() - i,
    {
        let mut bytes = u32_to_le_bytes(embedding[i]);
        assert(embedding@.take(i + 1).drop_last() =~= embedding@.take(i as int));
        blob.append(&mut bytes);
        i += 1;
    }
    assert(embedding@.take(embedding.len() as int) =~= embedding@);
    blob
}

proof fn lemma_best_distance_step(pool: Seq<Neighbor>, id: Seq<char>, upto: int)
    requires
        0 <= upto < pool.len(),
    ensures
        best_distance(pool.take(upto + 1), id) == if pool[upto].id == id && pool[upto].distance
            < best_distance(pool.take(upto), id) {
            pool[upto].distance
        } else {
            best_distance(pool.take(upto), id)
        },
{
    assert(pool.take(upto + 1).drop_last() =~= pool.take(upto));
}

/// The best distance of an entry is the least that the pool holds for it:
/// no hit of the entry is nearer, and some hit of the entry is that near.
pub proof fn lemma_best_distance_is_least(pool: Seq<Neighbor>, id: Seq<char>)
    ensures
        forall|k: int|
            0 <= k < pool.len() && (#[trigger] pool[k]).id == id ==> best_distance(pool, id)
                <= pool[k].distance,
        neighbor_ids(pool).contains(id) ==> exists|k: int|
            0 <= k < pool.len() && (#[trigger] pool[k]).id == id && pool[k].distance
                == best_distance(pool, id),
        !neighbor_ids(pool).contains(id) ==> best_distance(pool, id) == u64::MAX,
    decreases pool.len(),
{
    if pool.len() > 0 {
        let front = pool.drop_last();
        let last = pool.last();
        lemma_best_distance_is_least(front, id);
        assert forall|k: int| 0 <= k < pool.len() && (#[trigger] pool[k]).id == id implies best_distance(
            pool,
            id,
        ) <= pool[k].distance by {
            if k < front.len() {
                assert(front[k] == pool[k]);
            }
        }
        if neighbor_ids(front).contains(id) {
            let at = choose|at: int| 0 <= at < front.len() && neighbor_ids(front)[at] == id;
            assert(neighbor_ids(pool)[at] == id);
            let k = choose|k: int|
                0 <= k < front.len() && (#[trigger] front[k]).id == id && front[k].distance
                    == best_distance(front, id);
            assert(pool[k] == front[k]);
            if last.id == id && last.distance < best_distance(front, id) {
                assert(pool[pool.len() - 1].id == id);
            }
        } else if last.id == id {
            assert(neighbor_ids(pool)[pool.len() - 1] == id);
            assert(pool[pool.len() - 1].id == id);
        } else {
            assert forall|at: int| 0 <= at < pool.len() implies neighbor_ids(pool)[at] != id by {
                if at < front.len() {
                    assert(neighbor_ids(front)[at] == neighbor_ids(pool)[at]);
                }
            }
        }
        if neighbor_ids(pool).contains(id) && !neighbor_ids(front).contains(id) && last.id != id {
            let at = choose|at: int| 0 <= at < pool.len() && neighbor_ids(pool)[at] == id;
            if at < front.len() {
                assert(neighbor_ids(front)[at] == id);
            }
        }
    }
}

proof fn lemma_nearest_position(sorted: Seq<Neighbor>, distance: u64, at: int)
    requires
        0 <= at <= sorted.len(),
        forall|k: int| 0 <= k < at ==> (#[trigger] sorted[k]).distance <= distance,
        at == sorted.len() || sorted[at].distance > distance,
    ensures
        nearest_position(sorted, distance) == at,
    decreases at,
{
    if at > 0 {
        let rest = sorted.drop_first();
        assert forall|k: int| 0 <= k < at - 1 implies (#[trigger] rest[k]).distance <= distance by {
            assert(rest[k] == sorted[k + 1]);
        }
        lemma_nearest_position(rest, distance, at - 1);
    }
}

proof fn lemma_nearest_position_bounds(sorted: Seq<Neighbor>, distance: u64)
    ensures
        0 <= nearest_position(sorted, distance) <= sorted.len(),
        forall|k: int|
            0 <= k < nearest_position(sorted, distance) ==> (#[trigger] sorted[k]).distance
                <= distance,
        nearest_position(sorted, distance) < sorted.len() ==> sorted[nearest_position(
            sorted,
            distance,
        )].distance > distance,
    decreases sorted.len(),
{
    if sorted.len() > 0 && sorted[0].distance <= distance {
        let rest = sorted.drop_first();
        lemma_nearest_position_bounds(rest, distance);
        assert forall|k: int| 0 <= k < nearest_position(sorted, distance) implies (
        #[trigger] sorted[k]).distance <= distance by {
            if k > 0 {
                assert(sorted[k] == rest[k - 1]);
            }
        }
    }
}

/// Ordering by distance keeps every neighbour, each as often as it was
/// handed in, and puts the nearest first.
pub proof fn lemma_nearest_first_is_sorted(neighbors: Seq<Neighbor>)
    ensures
        nearest_first(neighbors).len() == neighbors.len(),
        nearest_first(neighbors).to_multiset() == neighbors.to_multiset(),
        ascending(nearest_first(neighbors)),
    decreases neighbors.len(),
{
    broadcast use vstd::seq_lib::to_multiset_insert, vstd::seq_lib::to_multiset_build;

    if neighbors.len() == 0 {
        assert(neighbors =~= Seq::empty());
    } else {
        let front = neighbors.drop_last();
        let last = neighbors.last();
        lemma_nearest_first_is_sorted(front);
        let sorted = nearest_first(front);
        let at = nearest_position(sorted, last.distance);
        lemma_nearest_position_bounds(sorted, last.distance);
        let out = sorted.insert(at, last);
        assert(neighbors =~= front.push(last));
        assert(out.to_multiset() =~= neighbors.to_multiset());
        assert forall|i: int, j: int| 0 <= i < j < out.len() implies (#[trigger] out[i]).distance <= (
        #[trigger] out[j]).distance by {
            if j < at {
                assert(out[i] == sorted[i] && out[j] == sorted[j]);
            } else if j == at {
                assert(out[i] == sorted[i]);
            } else if i < at {
                assert(out[i] == sorted[i] && out[j] == sorted[j - 1]);
            } else if i == at {
                assert(out[j] == sorted[j - 1]);
                if at < j - 1 {
                    assert(sorted[at].distance <= sorted[j - 1].distance);
                }
            } else {
                assert(out[i] == sorted[i - 1] && out[j] == sorted[j - 1]);
            }
        }
    }
}

/// Both pools as one list of hits, the entry-level hits first.
fn pool_hits(entry_results: &Vec<ChannelHit>, chunk_results: &Vec<ChunkSearchResult>) -> (pool: Vec<
    ChannelHit,
>)
    ensures
        entry_neighbors(pool@) == entry_neighbors(entry_results@) + chunk_neighbors(chunk_results@),
{
    let ghost wanted = entry_neighbors(entry_results@) + chunk_neighbors(chunk_results@);
    let mut pool: Vec<ChannelHit> = Vec::new();
    let mut i: usize = 0;
    while i < entry_results.len()
        invariant
            i <= entry_results.len(),
            pool.len() == i,
            wanted == entry_neighbors(entry_results@) + chunk_neighbors(chunk_results@),
            forall|k: int| 0 <= k < i ==> #[trigger] entry_neighbors(pool@)[k] == wanted[k],
        decreases entry_results.len() - i,
    {
        let ghost before = pool@;
        pool.push(ChannelHit { id: entry_results[i].id.clone(), score: entry_results[i].score });
        assert forall|k: int| 0 <= k < i + 1 implies #[trigger] entry_neighbors(pool@)[k]
            == wanted[k] by {
            if k < i {
                assert(entry_neighbors(before)[k] == wanted[k]);
            }
        }
        i += 1;
    }
    let mut j: usize = 0;
    while j < chunk_results.len()
        invariant
            j <= chunk_results.len(),
            pool.len() == entry_results.len() + j,
            wanted == entry_neighbors(entry_results@) + chunk_neighbors(chunk_results@),
            forall|k: int|
                0 <= k < entry_results.len() + j ==> #[trigger] entry_neighbors(pool@)[k]
                    == wanted[k],
        decreases chunk_results.len() - j,
    {
        let ghost before = pool@;
        pool.push(
            ChannelHit {
                id: chunk_results[j].journal_id.clone(),
                score: chunk_results[j].distance,
            },
        );
        assert forall|k: int| 0 <= k < entry_results.len() + j + 1 implies #[trigger] entry_neighbors(
            pool@,
        )[k] == wanted[k] by {
            if k < entry_results.len() + j {
                assert(entry_neighbors(before)[k] == wanted[k]);
            }
        }
        j += 1;
    }
    assert(entry_neighbors(pool@) =~= wanted);
    pool
}

/// The smallest distance that `pool` holds for `id`.
fn smallest_distance(pool: &Vec<ChannelHit>, id: &String) -> (distance: u64)
    ensures
        distance == best_distance(entry_neighbors(pool@), id@),
{
    let ghost neighbors = entry_neighbors(pool@);
    let mut distance: u64 = u64::MAX;
    let mut i: usize = 0;
    assert(neighbors.take(0) =~= Seq::empty());
    while i < pool.len()
        invariant
            i <= pool.len(),
            neighbors == entry_neighbors(pool@),
            distance == best_distance(neighbors.take(i as int), id@),
        decreases pool.len() - i,
    {
        proof {
            lemma_best_distance_step(neighbors, id@, i as int);
        }
        if pool[i].id == *id && pool[i].score < distance {
            distance = pool[i].score;
        }
        i += 1;
    }
    assert(neighbors.take(pool.len() as int) =~= neighbors);
    distance
}

/// Whether some hit of `hits` has the id `id`.
fn lists_id(hits: &Vec<ChannelHit>, id: &String) -> (yes: bool)
    ensures
        yes == neighbor_ids(entry_neighbors(hits@)).contains(id@),
{
    let mut i: usize = 0;
    while i < hits.len()
        invariant
            i <= hits.len(),
            forall|k: int|
                0 <= k < i ==> #[trigger] neighbor_ids(entry_neighbors(hits@))[k] != id@,
        decreases hits.len() - i,
    {
        if hits[i].id == *id {
            assert(neighbor_ids(entry_neighbors(hits@))[i as int] == id@);
            return true;
        }
        i += 1;
    }
    false
}

/// Each entry of `pool` once, with the smallest distance held for it.
fn best_hits(pool: &Vec<ChannelHit>) -> (best: Vec<ChannelHit>)
    ensures
        entry_neighbors(best@) == best_neighbors(entry_neighbors(pool@)),
{
    let ghost neighbors = entry_neighbors(pool@);
    let ghost ids = neighbor_ids(neighbors);
    let mut best: Vec<ChannelHit> = Vec::new();
    let mut i: usize = 0;
    assert(ids.take(0) =~= Seq::empty());
    while i < pool.len()
        invariant
            i <= pool.len(),
            neighbors == entry_neighbors(pool@),
            ids == neighbor_ids(neighbors),
            neighbor_ids(entry_neighbors(best@)) == distinct(ids.take(i as int)),
            forall|k: int|
                0 <= k < best.len() ==> (#[trigger] entry_neighbors(best@)[k]).distance
                    == best_distance(neighbors, entry_neighbors(best@)[k].id),
        decreases pool.len() - i,
    {
        let ghost upto = ids.take(i + 1);
        assert(upto.drop_last() =~= ids.take(i as int));
        assert(upto.last() == pool@[i as int].id@);
        if !lists_id(&best, &pool[i].id) {
            let id = pool[i].id.clone();
            let distance = smallest_distance(pool, &id);
            let ghost before = best@;
            best.push(ChannelHit { id, score: distance });
            assert(neighbor_ids(entry_neighbors(best@)) =~= neighbor_ids(
                entry_neighbors(before),
            ).push(pool@[i as int].id@));
            assert forall|k: int| 0 <= k < best.len() implies (#[trigger] entry_neighbors(
                best@,
            )[k]).distance == best_distance(neighbors, entry_neighbors(best@)[k].id) by {
                if k < before.len() {
                    assert(entry_neighbors(best@)[k] == entry_neighbors(before)[k]);
                }
            }
        }
        i += 1;
    }
    assert(ids.take(pool.len() as int) =~= ids);
    assert(entry_neighbors(best@) =~= best_neighbors(neighbors)) by {
        let wanted = distinct(ids);
        assert forall|k: int| 0 <= k < best.len() implies entry_neighbors(best@)[k]
            == best_neighbors(neighbors)[k] by {
            assert(neighbor_ids(entry_neighbors(best@))[k] == wanted[k]);
        }
    }
    best
}

/// Where a hit at `distance` goes into `sorted`.
fn nearest_index(sorted: &Vec<ChannelHit>, distance: u64) -> (at: usize)
    ensures
        at == nearest_position(entry_neighbors(sorted@), distance),
        at <= sorted.len(),
{
    let mut at: usize = 0;
    while at < sorted.len() && sorted[at].score <= distance
        invariant
            at <= sorted.len(),
            forall|k: int|
                0 <= k < at ==> (#[trigger] entry_neighbors(sorted@)[k]).distance <= distance,
        decreases sorted.len() - at,
    {
        at += 1;
    }
    proof {
        lemma_nearest_position(entry_neighbors(sorted@), distance, at as int);
    }
    at
}

/// `hits` ordered by ascending distance; hits at equal distance keep their
/// order.
pub(crate) fn order_nearest_first(hits: &Vec<ChannelHit>) -> (sorted: Vec<ChannelHit>)
    ensures
        entry_neighbors(sorted@) == nearest_first(entry_neighbors(hits@)),
{
    let ghost neighbors = entry_neighbors(hits@);
    let mut sorted: Vec<ChannelHit> = Vec::new();
    let mut i: usize = 0;
    assert(neighbors.take(0) =~= Seq::empty());
    while i < hits.len()
        invariant
            i <= hits.len(),
            neighbors == entry_neighbors(hits@),
            entry_neighbors(sorted@) == nearest_first(neighbors.take(i as int)),
        decreases hits.len() - i,
    {
        let ghost upto = neighbors.take(i + 1);
        assert(upto.drop_last() =~= neighbors.take(i as int));
        let at = nearest_index(&sorted, hits[i].score);
        let ghost before = sorted@;
        sorted.insert(at, ChannelHit { id: hits[i].id.clone(), score: hits[i].score });
        assert(entry_neighbors(sorted@) =~= entry_neighbors(before).insert(at as int, upto.last()));
        i += 1;
    }
    assert(neighbors.take(hits.len() as int) =~= neighbors);
    sorted
}

/// Merge the nearest entry-level vectors and the nearest chunk vectors into
/// one list of entries.
///
/// Every entry that either pool lists appears once, at the smallest distance
/// seen for its own vector and for the vectors of its chunks; the list is
/// ordered nearest first, and entries at equal distance stay in the order in
/// which the pools first list them.
pub fn merge_best_distances(
    entry_results: &Vec<ChannelHit>,
    chunk_results: &Vec<ChunkSearchResult>,
) -> (combined: Vec<ChannelHit>)
    ensures
        entry_neighbors(combined@) == merged(entry_results@, chunk_results@),
        hit_ids(combined@).no_duplicates(),
{
    let pool = pool_hits(entry_results, chunk_results);
    let best = best_hits(&pool);
    let combined = order_nearest_first(&best);
    proof {
        lemma_merged_lists_each_entry_once(entry_results@, chunk_results@);
        assert(hit_ids(combined@) =~= neighbor_ids(entry_neighbors(combined@)));
    }
    combined
}

/// Ordering by distance neither adds nor loses an entry: where no entry is
/// listed twice before, none is afterwards, and the entries are the same.
pub proof fn lemma_nearest_first_keeps_entries(neighbors: Seq<Neighbor>)
    requires
        neighbor_ids(neighbors).no_duplicates(),
    ensures
        neighbor_ids(nearest_first(neighbors)).no_duplicates(),
        forall|id: Seq<char>|
            #[trigger] neighbor_ids(nearest_first(neighbors)).contains(id) <==> neighbor_ids(
                neighbors,
            ).contains(id),
    decreases neighbors.len(),
{
    if neighbors.len() > 0 {
        let front = neighbors.drop_last();
        let last = neighbors.last();
        let ids = neighbor_ids(neighbors);
        let front_ids = neighbor_ids(front);
        assert(front_ids.no_duplicates()) by {
            assert forall|i: int, j: int|
                0 <= i < front_ids.len() && 0 <= j < front_ids.len() && i != j implies front_ids[i]
                != front_ids[j] by {
                assert(front_ids[i] == ids[i] && front_ids[j] == ids[j]);
            }
        }
        lemma_nearest_first_keeps_entries(front);
        let sorted = nearest_first(front);
        let sorted_ids = neighbor_ids(sorted);
        let at = nearest_position(sorted, last.distance);
        lemma_nearest_position_bounds(sorted, last.distance);
        let out = sorted.insert(at, last);
        let out_ids = neighbor_ids(out);
        assert(out_ids =~= sorted_ids.insert(at, last.id));
        assert(!sorted_ids.contains(last.id)) by {
            if sorted_ids.contains(last.id) {
                assert(front_ids.contains(last.id));
                let k = choose|k: int| 0 <= k < front_ids.len() && front_ids[k] == last.id;
                assert(ids[k] == last.id && ids[ids.len() - 1] == last.id);
            }
        }
        assert forall|i: int, j: int|
            0 <= i < out_ids.len() && 0 <= j < out_ids.len() && i != j implies out_ids[i]
            != out_ids[j] by {
            let a = if i < at {
                i
            } else {
                i - 1
            };
            let b = if j < at {
                j
            } else {
                j - 1
            };
            if i == at {
                assert(out_ids[j] == sorted_ids[b]);
                assert(sorted_ids.contains(sorted_ids[b]));
            } else if j == at {
                assert(out_ids[i] == sorted_ids[a]);
                assert(sorted_ids.contains(sorted_ids[a]));
            } else {
                assert(out_ids[i] == sorted_ids[a] && out_ids[j] == sorted_ids[b]);
            }
        }
        assert forall|id: Seq<char>| #[trigger] out_ids.contains(id) <==> ids.contains(id) by {
            if out_ids.contains(id) {
                let k = choose|k: int| 0 <= k < out_ids.len() && out_ids[k] == id;
                if k == at {
                    assert(ids[ids.len() - 1] == id);
                } else {
                    let a = if k < at {
                        k
                    } else {
                        k - 1
                    };
                    assert(sorted_ids[a] == id);
                    assert(sorted_ids.contains(id));
                    assert(front_ids.contains(id));
                    let m = choose|m: int| 0 <= m < front_ids.len() && front_ids[m] == id;
                    assert(ids[m] == id);
                }
            }
            if ids.contains(id) {
                let m = choose|m: int| 0 <= m < ids.len() && ids[m] == id;
                if m == ids.len() - 1 {
                    assert(out_ids[at] == id);
                } else {
                    assert(front_ids[m] == id);
                    assert(front_ids.contains(id));
                    assert(sorted_ids.contains(id));
                    let a = choose|a: int| 0 <= a < sorted_ids.len() && sorted_ids[a] == id;
                    if a < at {
                        assert(out_ids[a] == id);
                    } else {
                        assert(out_ids[a + 1] == id);
                    }
                }
            }
        }
    }
}

/// The merged neighbours list every entry of either pool, and none of them
/// twice.
pub proof fn lemma_merged_lists_each_entry_once(
    entries: Seq<ChannelHit>,
    chunks: Seq<ChunkSearchResult>,
)
    ensures
        neighbor_ids(merged(entries, chunks)).no_duplicates(),
        forall|id: Seq<char>|
            #[trigger] neighbor_ids(merged(entries, chunks)).contains(id) <==> neighbor_ids(
                entry_neighbors(entries) + chunk_neighbors(chunks),
            ).contains(id),
{
    let pool = entry_neighbors(entries) + chunk_neighbors(chunks);
    let best = best_neighbors(pool);
    lemma_distinct_lists_each_once(neighbor_ids(pool));
    assert(neighbor_ids(best) =~= distinct(neighbor_ids(pool)));
    lemma_nearest_first_keeps_entries(best);
    assert forall|id: Seq<char>|
        #[trigger] neighbor_ids(merged(entries, chunks)).contains(id) <==> neighbor_ids(
            pool,
        ).contains(id) by {
        assert(neighbor_ids(best).contains(id) <==> distinct(neighbor_ids(pool)).contains(id));
    }
}

/// Filtering lists no entry twice that the candidates list once.
pub proof fn lemma_survivors_stay_distinct(
    candidates: Seq<Neighbor>,
    statuses: Seq<EntryStatus>,
    include_archived: bool,
)
    requires
        neighbor_ids(candidates).no_duplicates(),
    ensures
        neighbor_ids(survivors(candidates, statuses, include_archived)).no_duplicates(),
        forall|id: Seq<char>|
            #[trigger] neighbor_ids(survivors(candidates, statuses, include_archived)).contains(
                id,
            ) ==> neighbor_ids(candidates).contains(id),
    decreases candidates.len(),
{
    let all = survivors(candidates, statuses, include_archived);
    let all_ids = neighbor_ids(all);
    if candidates.len() == 0 || statuses.len() != candidates.len() {
        assert(all_ids =~= Seq::empty());
    } else {
        let front = candidates.drop_last();
        let last = candidates.last();
        let ids = neighbor_ids(candidates);
        let front_ids = neighbor_ids(front);
        assert(front_ids.no_duplicates()) by {
            assert forall|i: int, j: int|
                0 <= i < front_ids.len() && 0 <= j < front_ids.len() && i != j implies front_ids[i]
                != front_ids[j] by {
                assert(front_ids[i] == ids[i] && front_ids[j] == ids[j]);
            }
        }
        lemma_survivors_stay_distinct(front, statuses.drop_last(), include_archived);
        let before = survivors(front, statuses.drop_last(), include_archived);
        let before_ids = neighbor_ids(before);
        assert forall|id: Seq<char>| #[trigger] all_ids.contains(id) implies ids.contains(id) by {
            let k = choose|k: int| 0 <= k < all_ids.len() && all_ids[k] == id;
            if k < before.len() {
                assert(before_ids[k] == id);
                assert(before_ids.contains(id));
                assert(front_ids.contains(id));
                let m = choose|m: int| 0 <= m < front_ids.len() && front_ids[m] == id;
                assert(ids[m] == id);
            } else {
                assert(ids[ids.len() - 1] == id);
            }
        }
        if admitted(statuses.last(), include_archived) {
            assert(all_ids =~= before_ids.push(last.id));
            assert(!before_ids.contains(last.id)) by {
                if before_ids.contains(last.id) {
                    assert(front_ids.contains(last.id));
                    let m = choose|m: int| 0 <= m < front_ids.len() && front_ids[m] == last.id;
                    assert(ids[m] == last.id && ids[ids.len() - 1] == last.id);
                }
            }
            assert forall|i: int, j: int|
                0 <= i < all_ids.len() && 0 <= j < all_ids.len() && i != j implies all_ids[i]
                != all_ids[j] by {
                if i < before_ids.len() && j < before_ids.len() {
                    assert(before_ids[i] != before_ids[j]);
                } else if i < before_ids.len() {
                    assert(before_ids.contains(before_ids[i]));
                } else {
                    assert(before_ids.contains(before_ids[j]));
                }
            }
        }
    }
}

/// Filters the neighbours of a query by what the store knows of their
/// entries, one lookup at a time.
///
/// The vector pools carry neither an archived flag nor a promise that the
/// entry still exists, so each candidate's entry has to be looked up in the
/// store. The filter names the next entry to look up, takes the answer, and
/// stops asking once `limit` entries are kept or the candidates are used up.
/// A missing entry marks an orphaned vector: it is left out, whatever the
/// search includes, and stops nothing. An archived entry is left out unless
/// the search includes archived entries.
pub struct ArchiveFilter {
    candidates: Vec<ChannelHit>,
    limit: usize,
    include_archived: bool,
    next: usize,
    kept: Vec<ChannelHit>,
    statuses: Ghost<Seq<EntryStatus>>,
}

impl ArchiveFilter {
    #[verifier::type_invariant]
    spec fn consistent(self) -> bool {
        &&& self.next <= self.candidates.len()
        &&& self.statuses@.len() == self.next
        &&& self.kept.len() <= self.limit
        &&& entry_neighbors(self.kept@) == survivors(
            entry_neighbors(self.candidates@).take(self.next as int),
            self.statuses@,
            self.include_archived,
        )
    }

    /// The candidates that the filter was made with.
    pub closed spec fn pool(self) -> Seq<Neighbor> {
        entry_neighbors(self.candidates@)
    }

    /// The number of entries that the filter keeps at most.
    pub closed spec fn capacity(self) -> nat {
        self.limit as nat
    }

    /// Whether archived entries take part in the search.
    pub closed spec fn includes_archived(self) -> bool {
        self.include_archived
    }

    /// The statuses handed in so far, one for each candidate looked up.
    pub closed spec fn resolved(self) -> Seq<EntryStatus> {
        self.statuses@
    }

    /// The neighbours kept so far.
    pub closed spec fn kept_so_far(self) -> Seq<Neighbor> {
        entry_neighbors(self.kept@)
    }

    /// Another lookup is wanted: fewer than `capacity` entries are kept and
    /// a candidate is left.
    pub open spec fn wants_lookup(self) -> bool {
        self.kept_so_far().len() < self.capacity() && self.resolved().len() < self.pool().len()
    }

    /// A filter over `candidates` that keeps at most `limit` entries.
    pub fn new(candidates: Vec<ChannelHit>, limit: usize, include_archived: bool) -> (filter: Self)
        ensures
            filter.pool() == entry_neighbors(candidates@),
            filter.capacity() == limit,
            filter.includes_archived() == include_archived,
            filter.resolved() == Seq::<EntryStatus>::empty(),
            filter.kept_so_far() == Seq::<Neighbor>::empty(),
    {
        let kept: Vec<ChannelHit> = Vec::new();
        assert(entry_neighbors(candidates@).take(0) =~= Seq::empty());
        assert(entry_neighbors(kept@) =~= Seq::empty());
        ArchiveFilter {
            candidates,
            limit,
            include_archived,
            next: 0,
            kept,
            statuses: Ghost(Seq::empty()),
        }
    }

    /// The id of the entry to look up next; `None` once enough entries are
    /// kept or no candidate is left.
    pub fn pending(&self) -> (id: Option<String>)
        ensures
            id is Some <==> self.wants_lookup(),
            id matches Some(text) ==> text@ == self.pool()[self.resolved().len() as int].id,
            self.kept_so_far() == survivors(
                self.pool().take(self.resolved().len() as int),
                self.resolved(),
                self.includes_archived(),
            ),
            self.kept_so_far().len() <= self.capacity(),
            self.resolved().len() <= self.pool().len(),
    {
        proof {
            use_type_invariant(self);
        }
        if self.kept.len() < self.limit && self.next < self.candidates.len() {
            Some(self.candidates[self.next].id.clone())
        } else {
            None
        }
    }

    /// Takes the status of the pending entry. An entry that takes part in
    /// the search is kept; a missing one, or an archived one where the
    /// search leaves archived entries out, is not. A filter that wants no
    /// lookup stays as it is.
    pub fn resolve(self, status: EntryStatus) -> (filter: Self)
        ensures
            filter.pool() == self.pool(),
            filter.capacity() == self.capacity(),
            filter.includes_archived() == self.includes_archived(),
            self.wants_lookup() ==> filter.resolved() == self.resolved().push(status),
            self.wants_lookup() && admitted(status, self.includes_archived())
                ==> filter.kept_so_far() == self.kept_so_far().push(
                self.pool()[self.resolved().len() as int],
            ),
            self.wants_lookup() && !admitted(status, self.includes_archived())
                ==> filter.kept_so_far() == self.kept_so_far(),
            !self.wants_lookup() ==> filter.resolved() == self.resolved() && filter.kept_so_far()
                == self.kept_so_far(),
    {
        proof {
            use_type_invariant(&self);
        }
        if !(self.kept.len() < self.limit && self.next < self.candidates.len()) {
            return self;
        }
        let ghost pool = entry_neighbors(self.candidates@);
        let ghost old_kept = entry_neighbors(self.kept@);
        let ArchiveFilter { candidates, limit, include_archived, next, kept, statuses } = self;
        let mut kept = kept;
        proof {
            let upto = pool.take(next + 1);
            assert(upto.drop_last() =~= pool.take(next as int));
            assert(statuses@.push(status).drop_last() =~= statuses@);
        }
        let keep = match status {
            EntryStatus::Active => true,
            EntryStatus::Archived => include_archived,
            EntryStatus::Missing => false,
        };
        if keep {
            kept.push(ChannelHit { id: candidates[next].id.clone(), score: candidates[next].score });
            assert(entry_neighbors(kept@) =~= old_kept.push(pool[next as int]));
        }
        ArchiveFilter {
            candidates,
            limit,
            include_archived,
            next: next + 1,
            kept,
            statuses: Ghost(statuses@.push(status)),
        }
    }

    /// The entries kept: those among the candidates looked up that take
    /// part in the search, in the order of the candidates. None of them is
    /// missing. Where the filter wants no further lookup, either `capacity`
    /// entries are kept or every candidate was looked up.
    pub fn finish(self) -> (kept: Vec<ChannelHit>)
        ensures
            entry_neighbors(kept@) == self.kept_so_far(),
            entry_neighbors(kept@) == survivors(
                self.pool().take(self.resolved().len() as int),
                self.resolved(),
                self.includes_archived(),
            ),
            kept.len() <= self.capacity(),
            !self.wants_lookup() ==> kept.len() == self.capacity() || self.resolved().len()
                == self.pool().len(),
            neighbor_ids(self.pool()).no_duplicates() ==> hit_ids(kept@).no_duplicates(),
    {
        proof {
            use_type_invariant(&self);
            let looked_up = self.pool().take(self.resolved().len() as int);
            if neighbor_ids(self.pool()).no_duplicates() {
                assert(neighbor_ids(looked_up).no_duplicates()) by {
                    assert forall|i: int, j: int|
                        0 <= i < looked_up.len() && 0 <= j < looked_up.len() && i
                            != j implies neighbor_ids(looked_up)[i] != neighbor_ids(
                        looked_up,
                    )[j] by {
                        assert(neighbor_ids(looked_up)[i] == neighbor_ids(self.pool())[i]);
                        assert(neighbor_ids(looked_up)[j] == neighbor_ids(self.pool())[j]);
                    }
                }
                lemma_survivors_stay_distinct(
                    looked_up,
                    self.resolved(),
                    self.includes_archived(),
                );
                assert(hit_ids(self.kept@) =~= neighbor_ids(entry_neighbors(self.kept@)));
            }
        }
        self.kept
    }
}

proof fn lemma_survivors_grow(
    candidates: Seq<Neighbor>,
    statuses: Seq<EntryStatus>,
    include_archived: bool,
    upto: int,
)
    requires
        statuses.len() == candidates.len(),
        0 <= upto <= candidates.len(),
    ensures
        survivors(candidates.take(upto), statuses.take(upto), include_archived).len()
            <= survivors(candidates, statuses, include_archived).len(),
        survivors(candidates, statuses, include_archived).take(
            survivors(candidates.take(upto), statuses.take(upto), include_archived).len() as int,
        ) == survivors(candidates.take(upto), statuses.take(upto), include_archived),
    decreases candidates.len() - upto,
{
    if upto == candidates.len() {
        assert(candidates.take(upto) =~= candidates);
        assert(statuses.take(upto) =~= statuses);
        let all = survivors(candidates, statuses, include_archived);
        assert(all.take(all.len() as int) =~= all);
    } else {
        lemma_survivors_grow(candidates, statuses, include_archived, upto + 1);
        let longer = survivors(
            candidates.take(upto + 1),
            statuses.take(upto + 1),
            include_archived,
        );
        let shorter = survivors(candidates.take(upto), statuses.take(upto), include_archived);
        assert(candidates.take(upto + 1).drop_last() =~= candidates.take(upto));
        assert(statuses.take(upto + 1).drop_last() =~= statuses.take(upto));
        assert(longer.take(shorter.len() as int) =~= shorter);
        let all = survivors(candidates, statuses, include_archived);
        assert(all.take(shorter.len() as int) =~= all.take(longer.len() as int).take(
            shorter.len() as int,
        ));
    }
}

/// Looking entries up one by one gives what filtering all candidates at once
/// and keeping the first `limit` would give: once `limit` entries are kept or
/// every candidate was looked up, the kept entries are the first `limit`
/// candidates that take part in the search, whatever the statuses of the
/// rest.
pub proof fn lemma_lazy_filter_is_exact(
    candidates: Seq<Neighbor>,
    statuses: Seq<EntryStatus>,
    include_archived: bool,
    looked_up: int,
    limit: nat,
)
    requires
        statuses.len() == candidates.len(),
        0 <= looked_up <= candidates.len(),
        survivors(candidates.take(looked_up), statuses.take(looked_up), include_archived).len()
            <= limit,
        survivors(candidates.take(looked_up), statuses.take(looked_up), include_archived).len()
            == limit || looked_up == candidates.len(),
    ensures
        survivors(candidates.take(looked_up), statuses.take(looked_up), include_archived)
            == if limit < survivors(candidates, statuses, include_archived).len() {
            survivors(candidates, statuses, include_archived).take(limit as int)
        } else {
            survivors(candidates, statuses, include_archived)
        },
{
    lemma_survivors_grow(candidates, statuses, include_archived, looked_up);
    let all = survivors(candidates, statuses, include_archived);
    if looked_up == candidates.len() {
        assert(candidates.take(looked_up) =~= candidates);
        assert(statuses.take(looked_up) =~= statuses);
    } else {
        assert(all.take(all.len() as int) =~= all);
    }
}

/// No orphan survives: every neighbour that the filter keeps has an entry
/// that exists, and one that is not archived unless archived entries are
/// included. Each kept neighbour is a candidate whose status admits it.
pub proof fn lemma_survivors_are_admitted(
    candidates: Seq<Neighbor>,
    statuses: Seq<EntryStatus>,
    include_archived: bool,
    k: int,
)
    requires
        statuses.len() == candidates.len(),
        0 <= k < survivors(candidates, statuses, include_archived).len(),
    ensures
        exists|i: int|
            0 <= i < candidates.len() && #[trigger] candidates[i] == survivors(
                candidates,
                statuses,
                include_archived,
            )[k] && admitted(statuses[i], include_archived) && statuses[i]
                != EntryStatus::Missing,
    decreases candidates.len(),
{
    let all = survivors(candidates, statuses, include_archived);
    let front = survivors(candidates.drop_last(), statuses.drop_last(), include_archived);
    if k < front.len() {
        lemma_survivors_are_admitted(
            candidates.drop_last(),
            statuses.drop_last(),
            include_archived,
            k,
        );
        let i = choose|i: int|
            0 <= i < candidates.drop_last().len() && #[trigger] candidates.drop_last()[i]
                == front[k] && admitted(statuses.drop_last()[i], include_archived)
                && statuses.drop_last()[i] != EntryStatus::Missing;
        assert(candidates[i] == all[k]);
        assert(statuses[i] == statuses.drop_last()[i]);
    } else {
        let i = candidates.len() - 1;
        assert(candidates[i] == all[k]);
    }
}

} // verus!
