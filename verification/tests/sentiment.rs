use mindscribe::error::AppError;
use mindscribe::ml::sentiment::{select_predictions, EmotionPrediction, EMOTION_LABELS};

fn scores(high: &[(usize, f32)]) -> Vec<u32> {
    let mut all = vec![0.01f32; 28];
    for (index, score) in high {
        all[*index] = *score;
    }
    all.iter().map(|s| s.to_bits()).collect()
}

fn shape(predictions: &[EmotionPrediction]) -> Vec<(&str, f32)> {
    predictions
        .iter()
        .map(|p| (p.label.as_str(), f32::from_bits(p.score)))
        .collect()
}

#[test]
fn test_emotion_labels_count() {
    assert_eq!(EMOTION_LABELS.len(), 28);
}

#[test]
fn test_contains_expected_emotions() {
    assert!(EMOTION_LABELS.contains(&"joy"));
    assert!(EMOTION_LABELS.contains(&"sadness"));
    assert!(EMOTION_LABELS.contains(&"anger"));
    assert!(EMOTION_LABELS.contains(&"neutral"));
}

#[test]
fn predictions_are_the_most_confident_emotions() {
    // joy is label 17, excitement 13, optimism 20, anger 2.
    let all = scores(&[(17, 0.9), (13, 0.4), (20, 0.6), (2, 0.05)]);
    let predictions = select_predictions(&all, 0.1f32.to_bits(), 5).unwrap();
    assert_eq!(
        shape(&predictions),
        vec![("joy", 0.9), ("optimism", 0.6), ("excitement", 0.4)]
    );
    let predictions = select_predictions(&all, 0.1f32.to_bits(), 2).unwrap();
    assert_eq!(shape(&predictions), vec![("joy", 0.9), ("optimism", 0.6)]);
    // The threshold itself is enough.
    let predictions = select_predictions(&all, 0.4f32.to_bits(), 5).unwrap();
    assert_eq!(predictions.len(), 3);
}

#[test]
fn equal_scores_keep_the_order_of_the_labels() {
    let all = scores(&[(25, 0.5), (3, 0.5), (9, 0.5)]);
    let predictions = select_predictions(&all, 0.1f32.to_bits(), 5).unwrap();
    assert_eq!(
        shape(&predictions),
        vec![("annoyance", 0.5), ("disappointment", 0.5), ("sadness", 0.5)]
    );
}

#[test]
fn neutral_is_reported_where_nothing_is_confident() {
    let all = scores(&[(27, 0.07)]);
    let predictions = select_predictions(&all, 0.1f32.to_bits(), 5).unwrap();
    assert_eq!(shape(&predictions), vec![("neutral", 0.07)]);
    let all = scores(&[(17, 0.9)]);
    let predictions = select_predictions(&all, 0.1f32.to_bits(), 0).unwrap();
    assert_eq!(shape(&predictions), vec![("neutral", 0.01)]);
}

#[test]
fn scores_that_are_no_numbers_are_left_out() {
    let all = scores(&[(17, f32::NAN), (13, 0.4)]);
    let predictions = select_predictions(&all, 0.1f32.to_bits(), 5).unwrap();
    assert_eq!(shape(&predictions), vec![("excitement", 0.4)]);
}

#[test]
fn every_label_needs_a_score() {
    match select_predictions(&vec![0u32; 27], 0, 5) {
        Err(AppError::InvalidInput(message)) => {
            assert_eq!(message, "Expected 28 emotion scores, got 27")
        }
        other => panic!("unexpected: {:?}", other),
    }
    assert!(select_predictions(&vec![0u32; 29], 0, 5).is_err());
    assert!(select_predictions(&vec![], 0, 5).is_err());
}
