use mindscribe::llm::safety::{
    verdict_for, SafetyFilter, SafetyLevel, SafetyResult, CRISIS_INTERVENTION, DISTRESS_MESSAGE,
    EMOTION_DISTRESS_MESSAGE, SUPPORT_RESOURCES,
};
use mindscribe::ml::sentiment::EmotionPrediction;

fn prediction(label: &str, score: f32) -> EmotionPrediction {
    EmotionPrediction {
        label: label.to_string(),
        score: score.to_bits(),
    }
}

#[test]
fn test_crisis_detection() {
    let filter = SafetyFilter::new();

    // Crisis keywords should trigger hard block
    let result = filter.check("I want to kill myself");
    assert!(!result.safe);
    assert_eq!(result.level, SafetyLevel::Crisis);

    let result = filter.check("thinking about suicide");
    assert!(!result.safe);
    assert_eq!(result.level, SafetyLevel::Crisis);

    let result = filter.check("I've been self-harming");
    assert!(!result.safe);
    assert_eq!(result.level, SafetyLevel::Crisis);
}

#[test]
fn test_distress_detection() {
    let filter = SafetyFilter::new();

    // Distress keywords should trigger soft warning
    let result = filter.check("I feel hopeless about everything");
    assert!(result.safe);
    assert_eq!(result.level, SafetyLevel::Distress);
    assert!(result.intervention.is_some());
}

#[test]
fn test_safe_messages() {
    let filter = SafetyFilter::new();

    // Normal messages should pass
    let result = filter.check("I had a great day today");
    assert!(result.safe);
    assert_eq!(result.level, SafetyLevel::Safe);
    assert!(result.intervention.is_none());

    let result = filter.check("I'm feeling a bit stressed about work");
    assert!(result.safe);
    assert_eq!(result.level, SafetyLevel::Safe);
}

#[test]
fn test_case_insensitivity() {
    let filter = SafetyFilter::new();

    let result = filter.check("I WANT TO KILL MYSELF");
    assert!(!result.safe);
    assert_eq!(result.level, SafetyLevel::Crisis);
}

#[test]
fn test_emotion_based_distress_detection() {
    let filter = SafetyFilter::new();

    // High grief emotion should trigger distress even without keywords
    let emotions = vec![prediction("grief", 0.7)];

    let result = filter.check_with_emotions("Today was really hard", Some(&emotions));
    assert!(result.safe);
    assert_eq!(result.level, SafetyLevel::Distress);
    assert!(result.intervention.is_some());
}

#[test]
fn test_low_emotion_scores_remain_safe() {
    let filter = SafetyFilter::new();

    // Low emotion scores should not trigger distress
    let emotions = vec![prediction("sadness", 0.3)];

    let result = filter.check_with_emotions("I felt a bit down today", Some(&emotions));
    assert!(result.safe);
    assert_eq!(result.level, SafetyLevel::Safe);
}

#[test]
fn test_positive_emotions_stay_safe() {
    let filter = SafetyFilter::new();

    // High positive emotions should not trigger distress
    let emotions = vec![prediction("joy", 0.9)];

    let result = filter.check_with_emotions("What a great day!", Some(&emotions));
    assert!(result.safe);
    assert_eq!(result.level, SafetyLevel::Safe);
}

#[test]
fn classification_examples() {
    let filter = SafetyFilter::new();

    let result = filter.check_with_emotions("I want to kill myself", None);
    assert_eq!((result.safe, result.level), (false, SafetyLevel::Crisis));
    assert_eq!(result.intervention.as_deref(), Some(CRISIS_INTERVENTION));

    let result = filter.check_with_emotions("I feel hopeless", None);
    assert_eq!((result.safe, result.level), (true, SafetyLevel::Distress));
    assert_eq!(result.intervention.as_deref(), Some(DISTRESS_MESSAGE));

    let result = filter.check_with_emotions("great day", None);
    assert_eq!((result.safe, result.level), (true, SafetyLevel::Safe));
    assert_eq!(result.intervention, None);

    let grief = vec![prediction("grief", 0.7)];
    let result = filter.check_with_emotions("today was hard", Some(&grief));
    assert_eq!((result.safe, result.level), (true, SafetyLevel::Distress));
    assert_eq!(result.intervention.as_deref(), Some(EMOTION_DISTRESS_MESSAGE));

    let sadness = vec![prediction("sadness", 0.3)];
    let result = filter.check_with_emotions("today was hard", Some(&sadness));
    assert_eq!((result.safe, result.level), (true, SafetyLevel::Safe));
    assert_eq!(result.intervention, None);
}

#[test]
fn crisis_comes_before_distress_and_emotions() {
    let filter = SafetyFilter::new();
    let grief = vec![prediction("grief", 0.9)];
    let result = filter.check_with_emotions("I feel hopeless and want to die", Some(&grief));
    assert_eq!(result.level, SafetyLevel::Crisis);
    let result = filter.check_with_emotions("I feel worthless", Some(&grief));
    assert_eq!(result.intervention.as_deref(), Some(DISTRESS_MESSAGE));
}

#[test]
fn phrases_match_whole_words_only() {
    let filter = SafetyFilter::new();
    assert_eq!(filter.check("a study of suicides in fiction").level, SafetyLevel::Safe);
    assert_eq!(filter.check("hopelessly romantic").level, SafetyLevel::Safe);
    assert_eq!(filter.check("self harm").level, SafetyLevel::Crisis);
    assert_eq!(filter.check("selfharm").level, SafetyLevel::Crisis);
    assert_eq!(filter.check("Suicidal.").level, SafetyLevel::Crisis);
    assert_eq!(filter.check("I CAN'T GO ON").level, SafetyLevel::Distress);
}

#[test]
fn emotion_threshold_is_strictly_above_one_half() {
    let filter = SafetyFilter::new();
    let level = |emotions: Vec<EmotionPrediction>| {
        filter
            .check_with_emotions("today was hard", Some(&emotions))
            .level
    };
    assert_eq!(level(vec![prediction("fear", 0.5)]), SafetyLevel::Safe);
    assert_eq!(
        level(vec![prediction("fear", f32::from_bits(0.5f32.to_bits() + 1))]),
        SafetyLevel::Distress
    );
    assert_eq!(level(vec![prediction("Nervousness", 0.51)]), SafetyLevel::Distress);
    assert_eq!(level(vec![prediction("DISAPPOINTMENT", 1.0)]), SafetyLevel::Distress);
    assert_eq!(level(vec![prediction("sadness", f32::INFINITY)]), SafetyLevel::Distress);
    assert_eq!(level(vec![prediction("sadness", f32::NAN)]), SafetyLevel::Safe);
    assert_eq!(level(vec![prediction("sadness", -0.9)]), SafetyLevel::Safe);
    assert_eq!(level(vec![prediction("anger", 0.99)]), SafetyLevel::Safe);
    assert_eq!(
        level(vec![prediction("joy", 0.9), prediction("grief", 0.6)]),
        SafetyLevel::Distress
    );
    assert_eq!(level(vec![]), SafetyLevel::Safe);
}

#[test]
fn only_distress_augments_the_reply() {
    let filter = SafetyFilter::new();
    let verdict = |level: SafetyLevel| SafetyResult {
        safe: level != SafetyLevel::Crisis,
        level,
        intervention: None,
    };
    assert_eq!(
        filter.augment_response("Reply.", &verdict(SafetyLevel::Distress)),
        format!("Reply.\n\n{}", SUPPORT_RESOURCES)
    );
    assert_eq!(filter.augment_response("Reply.", &verdict(SafetyLevel::Safe)), "Reply.");
    assert_eq!(filter.augment_response("Reply.", &verdict(SafetyLevel::Crisis)), "Reply.");
}

#[test]
fn messages_keep_their_wording() {
    assert!(CRISIS_INTERVENTION.starts_with("I'm concerned about what you've shared."));
    assert!(CRISIS_INTERVENTION.contains("\n\n• National Suicide Prevention Lifeline: 988 (call or text)\n"));
    assert!(CRISIS_INTERVENTION.ends_with("A trained counselor is available 24/7."));
    assert_eq!(
        SUPPORT_RESOURCES,
        "---\nIf you'd like to talk to someone, support is available:\n• 988 Suicide & Crisis Lifeline (call or text 988)\n• Crisis Text Line (text HOME to 741741)"
    );
}

#[test]
fn the_verdict_follows_what_was_found() {
    let shape = |crisis: bool, distress: bool, high_risk: bool| {
        let result = verdict_for(crisis, distress, high_risk);
        (result.safe, result.level, result.intervention)
    };
    for distress in [false, true] {
        for high_risk in [false, true] {
            assert_eq!(
                shape(true, distress, high_risk),
                (false, SafetyLevel::Crisis, Some(CRISIS_INTERVENTION.to_string()))
            );
        }
    }
    for high_risk in [false, true] {
        assert_eq!(
            shape(false, true, high_risk),
            (true, SafetyLevel::Distress, Some(DISTRESS_MESSAGE.to_string()))
        );
    }
    assert_eq!(
        shape(false, false, true),
        (true, SafetyLevel::Distress, Some(EMOTION_DISTRESS_MESSAGE.to_string()))
    );
    assert_eq!(shape(false, false, false), (true, SafetyLevel::Safe, None));
}
