//! Emotion labels and predictions as the emotion classifier reports them.

use crate::db::search::ChannelHit;
use crate::db::vectors::{
    entry_neighbors, lemma_nearest_first_is_sorted, nearest_first, order_nearest_first, Neighbor,
};
use crate::error::AppError;
use crate::llm::safety::INFINITY_BITS;
use crate::text::{decimal_digits, push_decimal};
use vstd::prelude::*;

verus! {

/// GoEmotions taxonomy: 27 emotion labels and `neutral`.
pub const EMOTION_LABELS: [&'static str; 28] = [
    "admiration",
    "amusement",
    "anger",
    "annoyance",
    "approval",
    "caring",
    "confusion",
    "curiosity",
    "desire",
    "disappointment",
    "disapproval",
    "disgust",
    "embarrassment",
    "excitement",
    "fear",
    "gratitude",
    "grief",
    "joy",
    "love",
    "nervousness",
    "optimism",
    "pride",
    "realization",
    "relief",
    "remorse",
    "sadness",
    "surprise",
    "neutral",
];

/// An emotion with the classifier's confidence in it.
///
/// `score` is the IEEE-754 bit pattern of the confidence, a 32-bit float:
/// among non-negative floats the bit patterns are ordered as the numbers are.
#[derive(Debug, Clone)]
pub struct EmotionPrediction {
    pub label: String,
    pub score: u32,
}

/// The place of `neutral` among the labels.
pub const NEUTRAL_INDEX: usize = 27;

/// The label at `index`.
pub open spec fn label_at(index: int) -> Seq<char> {
    EMOTION_LABELS[index]@
}

/// `score` is a number and at least `threshold`. Both are bit patterns of
/// non-negative floats; a pattern above that of infinity is no such number.
pub open spec fn confident(score: u32, threshold: u32) -> bool {
    threshold <= score <= INFINITY_BITS
}

/// The emotions of `scores` that are held with at least `threshold`, in the
/// order of the labels. Each is given as a neighbour whose distance is what
/// its score lacks of the largest pattern, so that the most confident is the
/// nearest.
pub open spec fn confident_emotions(scores: Seq<u32>, threshold: u32) -> Seq<Neighbor>
    decreases scores.len(),
{
    if scores.len() == 0 {
        Seq::empty()
    } else if confident(scores.last(), threshold) {
        confident_emotions(scores.drop_last(), threshold).push(
            Neighbor {
                id: label_at(scores.len() - 1),
                distance: (u32::MAX - scores.last()) as u64,
            },
        )
    } else {
        confident_emotions(scores.drop_last(), threshold)
    }
}

/// The predictions reported for `scores`: the emotions held with at least
/// `threshold`, most confident first and those of equal confidence in the
/// order of the labels, `max_labels` at most; `neutral` with its own score
/// where that leaves none.
pub open spec fn selected(scores: Seq<u32>, threshold: u32, max_labels: nat) -> Seq<
    (Seq<char>, u32),
> {
    let ranked = nearest_first(confident_emotions(scores, threshold));
    let kept = if max_labels < ranked.len() {
        ranked.take(max_labels as int)
    } else {
        ranked
    };
    if kept.len() == 0 {
        seq![(label_at(NEUTRAL_INDEX as int), scores[NEUTRAL_INDEX as int])]
    } else {
        Seq::new(kept.len(), |i: int| (kept[i].id, (u32::MAX - kept[i].distance) as u32))
    }
}

/// Label and score of each prediction of `predictions`.
pub open spec fn prediction_views(predictions: Seq<EmotionPrediction>) -> Seq<(Seq<char>, u32)> {
    Seq::new(predictions.len(), |i: int| (predictions[i].label@, predictions[i].score))
}

/// The message of the error for a list of scores of the wrong length.
pub open spec fn score_count_message(got: nat) -> Seq<char> {
    "Expected "@ + decimal_digits(EMOTION_LABELS@.len()) + " emotion scores, got "@
        + decimal_digits(got)
}

/// Choose the predictions to report from the scores of all labels.
///
/// `scores` holds one score for each label of [`EMOTION_LABELS`], in their
/// order; a list of any other length is refused. Scores and `threshold` are
/// bit patterns of non-negative floats.
pub fn select_predictions(scores: &Vec<u32>, threshold: u32, max_labels: usize) -> (result: Result<
    Vec<EmotionPrediction>,
    AppError,
>)
    ensures
        result is Ok <==> scores.len() == EMOTION_LABELS@.len(),
        result matches Ok(predictions) ==> prediction_views(predictions@) == selected(
            scores@,
            threshold,
            max_labels as nat,
        ),
        result matches Err(error) ==> error is InvalidInput && error.reason()
            == score_count_message(scores.len() as nat),
{
    if scores.len() != EMOTION_LABELS.len() {
        let mut message = String::from_str("Expected ");
        push_decimal(&mut message, EMOTION_LABELS.len());
        message.append(" emotion scores, got ");
        push_decimal(&mut message, scores.len());
        return Err(AppError::InvalidInput(message));
    }
    let mut found: Vec<ChannelHit> = Vec::new();
    let mut i: usize = 0;
    assert(scores@.take(0) =~= Seq::empty());
    assert(entry_neighbors(found@) =~= Seq::empty());
    while i < scores.len()
        invariant
            i <= scores.len() == EMOTION_LABELS@.len(),
            entry_neighbors(found@) == confident_emotions(scores@.take(i as int), threshold),
        decreases scores.len() - i,
    {
        assert(scores@.take(i + 1).drop_last() =~= scores@.take(i as int));
        let score = scores[i];
        if threshold <= score && score <= INFINITY_BITS {
            let ghost before = found@;
            found.push(
                ChannelHit { id: String::from_str(EMOTION_LABELS[i]), score: (u32::MAX - score) as u64 },
            );
            assert(entry_neighbors(found@) =~= entry_neighbors(before).push(
                Neighbor { id: label_at(i as int), distance: (u32::MAX - score) as u64 },
            ));
        }
        i += 1;
    }
    assert(scores@.take(scores.len() as int) =~= scores@);
    let mut ranked = order_nearest_first(&found);
    let ghost all = entry_neighbors(ranked@);
    ranked.truncate(max_labels);
    let ghost kept = entry_neighbors(ranked@);
    assert(kept =~= if max_labels < all.len() {
        all.take(max_labels as int)
    } else {
        all
    });
    let mut predictions: Vec<EmotionPrediction> = Vec::new();
    if ranked.len() == 0 {
        predictions.push(
            EmotionPrediction {
                label: String::from_str(EMOTION_LABELS[NEUTRAL_INDEX]),
                score: scores[NEUTRAL_INDEX],
            },
        );
        assert(prediction_views(predictions@) =~= selected(scores@, threshold, max_labels as nat));
        return Ok(predictions);
    }
    proof {
        broadcast use vstd::seq_lib::group_to_multiset_ensures;

        let emotions = confident_emotions(scores@, threshold);
        lemma_confident_distances(scores@, threshold);
        lemma_nearest_first_is_sorted(emotions);
        assert forall|j: int| 0 <= j < kept.len() implies (#[trigger] kept[j]).distance
            <= u32::MAX by {
            assert(kept[j] == all[j]);
            assert(all.contains(all[j]));
            assert(all.to_multiset().count(all[j]) > 0);
            assert(emotions.contains(all[j]));
        }
    }
    let mut k: usize = 0;
    while k < ranked.len()
        invariant
            k <= ranked.len(),
            predictions.len() == k,
            kept == entry_neighbors(ranked@),
            forall|j: int| 0 <= j < kept.len() ==> (#[trigger] kept[j]).distance <= u32::MAX,
            forall|j: int|
                0 <= j < k ==> #[trigger] prediction_views(predictions@)[j] == (
                    kept[j].id,
                    (u32::MAX - kept[j].distance) as u32,
                ),
        decreases ranked.len() - k,
    {
        assert(kept[k as int].distance == ranked@[k as int].score);
        let ghost before = predictions@;
        predictions.push(
            EmotionPrediction {
                label: ranked[k].id.clone(),
                score: (u32::MAX as u64 - ranked[k].score) as u32,
            },
        );
        assert forall|j: int| 0 <= j < k + 1 implies #[trigger] prediction_views(predictions@)[j]
            == (kept[j].id, (u32::MAX - kept[j].distance) as u32) by {
            if j < k {
                assert(prediction_views(before)[j] == (
                    kept[j].id,
                    (u32::MAX - kept[j].distance) as u32,
                ));
            }
        }
        k += 1;
    }
    assert(prediction_views(predictions@) =~= selected(scores@, threshold, max_labels as nat));
    Ok(predictions)
}

proof fn lemma_confident_distances(scores: Seq<u32>, threshold: u32)
    ensures
        forall|j: int|
            0 <= j < confident_emotions(scores, threshold).len() ==> (
            #[trigger] confident_emotions(scores, threshold)[j]).distance <= u32::MAX,
    decreases scores.len(),
{
    if scores.len() > 0 {
        lemma_confident_distances(scores.drop_last(), threshold);
        let before = confident_emotions(scores.drop_last(), threshold);
        let all = confident_emotions(scores, threshold);
        assert forall|j: int| 0 <= j < all.len() implies (#[trigger] all[j]).distance
            <= u32::MAX by {
            if j < before.len() {
                assert(all[j] == before[j]);
            }
        }
    }
}

} // verus!
