//! The safety gate: classifies a message as safe, distressed or in crisis
//! before anything is sent to the language model, and appends support
//! resources to replies written for a distressed user.

use crate::ml::sentiment::EmotionPrediction;
use crate::text::{regex_is_match, regex_matches, to_lowercase, unicode_lowercase, views};
use vstd::prelude::*;

verus! {

/// Crisis intervention message shown to the user instead of a model reply.
pub const CRISIS_INTERVENTION: &'static str =
    "I'm concerned about what you've shared. Your wellbeing matters.\n\nIf you're having thoughts of hurting yourself, please reach out:\n\n\u{2022} National Suicide Prevention Lifeline: 988 (call or text)\n\u{2022} Crisis Text Line: Text HOME to 741741\n\u{2022} International Association for Suicide Prevention: https://www.iasp.info/resources/Crisis_Centres/\n\nYou don't have to face this alone. A trained counselor is available 24/7.";

/// Message shown when a distress phrase was found.
pub const DISTRESS_MESSAGE: &'static str =
    "I hear that you're going through a difficult time. Your feelings are valid.";

/// Message shown when the emotion scores point to distress.
pub const EMOTION_DISTRESS_MESSAGE: &'static str =
    "I notice you might be going through a difficult time. Remember, it's okay to feel this way, and you don't have to face it alone.";

/// Support resources appended to replies when distress was detected.
pub const SUPPORT_RESOURCES: &'static str =
    "---\nIf you'd like to talk to someone, support is available:\n\u{2022} 988 Suicide & Crisis Lifeline (call or text 988)\n\u{2022} Crisis Text Line (text HOME to 741741)";

/// The bit pattern of the 32-bit float 0.5.
pub const HALF_BITS: u32 = 0x3F00_0000;

/// The bit pattern of the 32-bit float positive infinity, the largest
/// pattern that is a number.
pub const INFINITY_BITS: u32 = 0x7F80_0000;

/// Safety level classification.
#[derive(Debug, Clone, Copy, PartialEq, Eq, Structural)]
pub enum SafetyLevel {
    /// No safety concerns detected.
    Safe,
    /// High distress detected, but not crisis-level. Show a soft warning.
    Distress,
    /// Crisis-level content detected. Hard block and show the intervention.
    Crisis,
}

/// Result of a safety check.
#[derive(Debug, Clone)]
pub struct SafetyResult {
    pub safe: bool,
    pub level: SafetyLevel,
    pub intervention: Option<String>,
}

/// A safety verdict as a mathematical value.
pub struct SafetyVerdict {
    pub safe: bool,
    pub level: SafetyLevel,
    pub intervention: Option<Seq<char>>,
}

impl View for SafetyResult {
    type V = SafetyVerdict;

    open spec fn view(&self) -> SafetyVerdict {
        SafetyVerdict {
            safe: self.safe,
            level: self.level,
            intervention: match self.intervention {
                Some(text) => Some(text@),
                None => None,
            },
        }
    }
}

/// The phrases that mark a crisis, as regular expressions over lowercased
/// text.
pub open spec fn crisis_keywords() -> Seq<Seq<char>> {
    seq![
        "\\bsuicide\\b"@,
        "\\bkill myself\\b"@,
        "\\bend my life\\b"@,
        "\\bwant to die\\b"@,
        "\\bself[- ]?harm(ing)?\\b"@,
        "\\bhurt myself\\b"@,
        "\\bno reason to live\\b"@,
        "\\bending it all\\b"@,
        "\\btake my own life\\b"@,
        "\\bcut myself\\b"@,
        "\\bkill themselves\\b"@,
        "\\bsuicidal\\b"@,
    ]
}

/// The phrases that mark high distress, as regular expressions over
/// lowercased text.
pub open spec fn distress_keywords() -> Seq<Seq<char>> {
    seq![
        "\\bhopeless\\b"@,
        "\\bworthless\\b"@,
        "\\bcan't go on\\b"@,
        "\\bwant to disappear\\b"@,
        "\\bno point\\b"@,
        "\\bgive up\\b"@,
    ]
}

/// Some pattern of `patterns` matches somewhere in `text`.
pub open spec fn any_match(patterns: Seq<Seq<char>>, text: Seq<char>) -> bool {
    exists|i: int| 0 <= i < patterns.len() && regex_matches(#[trigger] patterns[i], text)
}

/// `label`, whatever its case, names an emotion that signals risk.
pub open spec fn risk_label(label: Seq<char>) -> bool {
    let lower = unicode_lowercase(label);
    lower == "grief"@ || lower == "fear"@ || lower == "sadness"@ || lower == "nervousness"@
        || lower == "disappointment"@
}

/// `bits` is the pattern of a float greater than 0.5. Patterns above that of
/// infinity are no numbers, and those with the sign bit set are not positive.
pub open spec fn above_half(bits: u32) -> bool {
    HALF_BITS < bits <= INFINITY_BITS
}

/// `prediction` is a risk emotion held with a confidence above 0.5.
pub open spec fn high_risk(prediction: EmotionPrediction) -> bool {
    risk_label(prediction.label@) && above_half(prediction.score)
}

/// Some prediction of `emotions` is a high-risk one.
pub open spec fn any_high_risk(emotions: Seq<EmotionPrediction>) -> bool {
    exists|i: int| 0 <= i < emotions.len() && high_risk(#[trigger] emotions[i])
}

/// The verdict for what was found in a message: a crisis phrase blocks it,
/// whatever else was found; a distress phrase marks distress; failing both,
/// a high-risk emotion marks distress with a message of its own; a message
/// with none of them is safe.
pub open spec fn verdict_of(crisis: bool, distress: bool, high_risk: bool) -> SafetyVerdict {
    if crisis {
        SafetyVerdict {
            safe: false,
            level: SafetyLevel::Crisis,
            intervention: Some(CRISIS_INTERVENTION@),
        }
    } else if distress {
        SafetyVerdict {
            safe: true,
            level: SafetyLevel::Distress,
            intervention: Some(DISTRESS_MESSAGE@),
        }
    } else if high_risk {
        SafetyVerdict {
            safe: true,
            level: SafetyLevel::Distress,
            intervention: Some(EMOTION_DISTRESS_MESSAGE@),
        }
    } else {
        SafetyVerdict { safe: true, level: SafetyLevel::Safe, intervention: None }
    }
}

/// The verdict on `text`, given the emotion predictions that came with it:
/// the phrases are looked for in the lowercased text, the emotions among the
/// predictions, and [`verdict_of`] decides.
pub open spec fn classify(text: Seq<char>, emotions: Option<Seq<EmotionPrediction>>) -> SafetyVerdict {
    let lower = unicode_lowercase(text);
    verdict_of(
        any_match(crisis_keywords(), lower),
        any_match(distress_keywords(), lower),
        emotions is Some && any_high_risk(emotions->0),
    )
}

/// `response` as it is shown after a check that ended at `level`: followed
/// by the support resources when distress was found, unchanged otherwise.
pub open spec fn augmented(response: Seq<char>, level: SafetyLevel) -> Seq<char> {
    if level == SafetyLevel::Distress {
        response + "\n\n"@ + SUPPORT_RESOURCES@
    } else {
        response
    }
}

/// Safety filter for detecting crisis situations in user messages.
pub struct SafetyFilter {
    crisis_patterns: Vec<String>,
    distress_patterns: Vec<String>,
}

fn crisis_pattern_list() -> (patterns: Vec<String>)
    ensures
        views(patterns@) == crisis_keywords(),
{
    let mut patterns: Vec<String> = Vec::new();
    patterns.push(String::from_str("\\bsuicide\\b"));
    patterns.push(String::from_str("\\bkill myself\\b"));
    patterns.push(String::from_str("\\bend my life\\b"));
    patterns.push(String::from_str("\\bwant to die\\b"));
    patterns.push(String::from_str("\\bself[- ]?harm(ing)?\\b"));
    patterns.push(String::from_str("\\bhurt myself\\b"));
    patterns.push(String::from_str("\\bno reason to live\\b"));
    patterns.push(String::from_str("\\bending it all\\b"));
    patterns.push(String::from_str("\\btake my own life\\b"));
    patterns.push(String::from_str("\\bcut myself\\b"));
    patterns.push(String::from_str("\\bkill themselves\\b"));
    patterns.push(String::from_str("\\bsuicidal\\b"));
    assert(views(patterns@) =~= crisis_keywords());
    patterns
}

fn distress_pattern_list() -> (patterns: Vec<String>)
    ensures
        views(patterns@) == distress_keywords(),
{
    let mut patterns: Vec<String> = Vec::new();
    patterns.push(String::from_str("\\bhopeless\\b"));
    patterns.push(String::from_str("\\bworthless\\b"));
    patterns.push(String::from_str("\\bcan't go on\\b"));
    patterns.push(String::from_str("\\bwant to disappear\\b"));
    patterns.push(String::from_str("\\bno point\\b"));
    patterns.push(String::from_str("\\bgive up\\b"));
    assert(views(patterns@) =~= distress_keywords());
    patterns
}

/// Whether some pattern of `patterns` matches somewhere in `text`.
fn matches_any(patterns: &Vec<String>, text: &str) -> (found: bool)
    ensures
        found == any_match(views(patterns@), text@),
{
    let mut i: usize = 0;
    while i < patterns.len()
        invariant
            i <= patterns.len(),
            forall|k: int| 0 <= k < i ==> !regex_matches(#[trigger] views(patterns@)[k], text@),
        decreases patterns.len() - i,
    {
        if regex_is_match(patterns[i].as_str(), text) {
            assert(regex_matches(views(patterns@)[i as int], text@));
            return true;
        }
        i += 1;
    }
    false
}

/// Whether `prediction` is a risk emotion held with a confidence above 0.5.
fn is_high_risk(prediction: &EmotionPrediction) -> (yes: bool)
    ensures
        yes == high_risk(*prediction),
{
    let label = to_lowercase(prediction.label.as_str());
    let risk = label == String::from_str("grief") || label == String::from_str("fear") || label
        == String::from_str("sadness") || label == String::from_str("nervousness") || label
        == String::from_str("disappointment");
    risk && prediction.score > HALF_BITS && prediction.score <= INFINITY_BITS
}

/// Whether some prediction of `emotions` is a high-risk one.
fn has_high_risk(emotions: &[EmotionPrediction]) -> (yes: bool)
    ensures
        yes == any_high_risk(emotions@),
{
    let mut i: usize = 0;
    while i < emotions.len()
        invariant
            i <= emotions.len(),
            forall|k: int| 0 <= k < i ==> !high_risk(#[trigger] emotions@[k]),
        decreases emotions.len() - i,
    {
        if is_high_risk(&emotions[i]) {
            return true;
        }
        i += 1;
    }
    false
}

/// Decide on a message from what was found in it: whether a crisis phrase
/// matched, whether a distress phrase matched, and whether a risk emotion is
/// held with high confidence.
pub fn verdict_for(crisis: bool, distress: bool, high_risk: bool) -> (result: SafetyResult)
    ensures
        result@ == verdict_of(crisis, distress, high_risk),
{
    if crisis {
        SafetyResult {
            safe: false,
            level: SafetyLevel::Crisis,
            intervention: Some(String::from_str(CRISIS_INTERVENTION)),
        }
    } else if distress {
        SafetyResult {
            safe: true,
            level: SafetyLevel::Distress,
            intervention: Some(String::from_str(DISTRESS_MESSAGE)),
        }
    } else if high_risk {
        SafetyResult {
            safe: true,
            level: SafetyLevel::Distress,
            intervention: Some(String::from_str(EMOTION_DISTRESS_MESSAGE)),
        }
    } else {
        SafetyResult { safe: true, level: SafetyLevel::Safe, intervention: None }
    }
}

impl SafetyFilter {
    #[verifier::type_invariant]
    spec fn holds_the_keywords(self) -> bool {
        &&& views(self.crisis_patterns@) == crisis_keywords()
        &&& views(self.distress_patterns@) == distress_keywords()
    }

    /// The patterns whose match marks a crisis.
    pub closed spec fn crisis_list(&self) -> Seq<Seq<char>> {
        views(self.crisis_patterns@)
    }

    /// The patterns whose match marks distress.
    pub closed spec fn distress_list(&self) -> Seq<Seq<char>> {
        views(self.distress_patterns@)
    }

    /// A filter over the crisis and the distress phrases.
    pub fn new() -> (filter: Self)
        ensures
            filter.crisis_list() == crisis_keywords(),
            filter.distress_list() == distress_keywords(),
    {
        SafetyFilter {
            crisis_patterns: crisis_pattern_list(),
            distress_patterns: distress_pattern_list(),
        }
    }

    /// Check a message for safety concerns, with no emotion predictions.
    pub fn check(&self, text: &str) -> (result: SafetyResult)
        ensures
            result@ == classify(text@, None),
    {
        self.check_with_emotions(text, None)
    }

    /// Check a message for safety concerns, considering emotion predictions.
    ///
    /// A crisis phrase blocks the message; a distress phrase, or failing that
    /// a risk emotion (grief, fear, sadness, nervousness, disappointment)
    /// scored above 0.5, marks it as distress; anything else is safe.
    pub fn check_with_emotions(&self, text: &str, emotions: Option<&[EmotionPrediction]>) -> (result:
        SafetyResult)
        ensures
            result@ == classify(
                text@,
                match emotions {
                    Some(list) => Some(list@),
                    None => None,
                },
            ),
    {
        proof {
            use_type_invariant(self);
        }
        let lower = to_lowercase(text);
        // Each check is made only where the ones before it found nothing.
        let crisis = matches_any(&self.crisis_patterns, lower.as_str());
        let distress = !crisis && matches_any(&self.distress_patterns, lower.as_str());
        let high_risk = !crisis && !distress && match emotions {
            Some(list) => has_high_risk(list),
            None => false,
        };
        verdict_for(crisis, distress, high_risk)
    }

    /// Augment a model reply with support resources when distress was
    /// detected; any other reply is returned as it is.
    pub fn augment_response(&self, response: &str, safety: &SafetyResult) -> (out: String)
        ensures
            out@ == augmented(response@, safety.level),
    {
        match safety.level {
            SafetyLevel::Distress => {
                let mut out = String::from_str(response);
                out.append("\n\n");
                out.append(SUPPORT_RESOURCES);
                out
            },
            _ => String::from_str(response),
        }
    }
}

impl Default for SafetyFilter {
    fn default() -> (filter: Self)
        ensures
            filter.crisis_list() == crisis_keywords(),
            filter.distress_list() == distress_keywords(),
    {
        SafetyFilter::new()
    }
}

impl Clone for SafetyFilter {
    /// Every filter holds the same phrases, so a new one is a copy.
    fn clone(&self) -> (filter: Self)
        ensures
            filter.crisis_list() == crisis_keywords(),
            filter.distress_list() == distress_keywords(),
    {
        SafetyFilter::new()
    }
}

} // verus!
