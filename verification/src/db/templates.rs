//! Journal templates.

use crate::error::AppError;
use crate::text::{blank, is_blank, to_lowercase, unicode_lowercase, views};
use crate::time::Timestamp;
use vstd::prelude::*;

verus! {

/// Template categories for organization.
#[derive(Debug, Clone, Copy, PartialEq, Eq, Structural)]
pub enum TemplateCategory {
    Growth,
    Mindfulness,
    Morning,
    Reflection,
}

impl TemplateCategory {
    /// The lowercase name of the category.
    pub open spec fn name(self) -> Seq<char> {
        match self {
            TemplateCategory::Growth => "growth"@,
            TemplateCategory::Mindfulness => "mindfulness"@,
            TemplateCategory::Morning => "morning"@,
            TemplateCategory::Reflection => "reflection"@,
        }
    }

    /// The category that `text` names, whatever its case; a text that names
    /// none is a reflection.
    pub open spec fn named_by(text: Seq<char>) -> TemplateCategory {
        let lower = unicode_lowercase(text);
        if lower == "growth"@ {
            TemplateCategory::Growth
        } else if lower == "mindfulness"@ {
            TemplateCategory::Mindfulness
        } else if lower == "morning"@ {
            TemplateCategory::Morning
        } else {
            TemplateCategory::Reflection
        }
    }

    pub fn as_str(&self) -> (name: &'static str)
        ensures
            name@ == self.name(),
    {
        match self {
            TemplateCategory::Growth => "growth",
            TemplateCategory::Mindfulness => "mindfulness",
            TemplateCategory::Morning => "morning",
            TemplateCategory::Reflection => "reflection",
        }
    }

    /// Reads a category from its name, ignoring case. Unknown names give
    /// `Reflection`.
    pub fn parse(text: &str) -> (category: TemplateCategory)
        ensures
            category == TemplateCategory::named_by(text@),
    {
        let lower = to_lowercase(text);
        if lower == String::from_str("growth") {
            TemplateCategory::Growth
        } else if lower == String::from_str("mindfulness") {
            TemplateCategory::Mindfulness
        } else if lower == String::from_str("morning") {
            TemplateCategory::Morning
        } else {
            TemplateCategory::Reflection
        }
    }
}

impl std::str::FromStr for TemplateCategory {
    type Err = std::convert::Infallible;

    fn from_str(text: &str) -> (result: Result<Self, Self::Err>)
        ensures
            result matches Ok(category) && category == TemplateCategory::named_by(text@),
    {
        Ok(TemplateCategory::parse(text))
    }
}

impl Default for TemplateCategory {
    fn default() -> (category: TemplateCategory)
        ensures
            category == TemplateCategory::Reflection,
    {
        TemplateCategory::Reflection
    }
}

/// A journal template as the store holds it.
#[derive(Debug, Clone)]
pub struct Template {
    pub id: String,
    pub title: String,
    pub prompt: String,
    pub template_text: String,
    pub icon: Option<String>,
    pub category: TemplateCategory,
    pub is_default: bool,
    pub created_at: Timestamp,
    pub updated_at: Timestamp,
}

#[derive(Debug)]
pub struct CreateTemplateResponse {
    pub status: String,
    pub id: String,
}

#[derive(Debug)]
pub struct DeleteTemplateResponse {
    pub success: bool,
}

/// The columns that an update of a template sets: the time of the update
/// always, then each field that is given. Whether a template is a default
/// one cannot be changed.
pub open spec fn template_columns(
    title: bool,
    prompt: bool,
    template_text: bool,
    icon: bool,
    category: bool,
) -> Seq<Seq<char>> {
    seq!["updated_at"@] + (if title {
        seq!["title"@]
    } else {
        Seq::empty()
    }) + (if prompt {
        seq!["prompt"@]
    } else {
        Seq::empty()
    }) + (if template_text {
        seq!["template_text"@]
    } else {
        Seq::empty()
    }) + (if icon {
        seq!["icon"@]
    } else {
        Seq::empty()
    }) + (if category {
        seq!["category"@]
    } else {
        Seq::empty()
    })
}

/// Checks title and prompt of a template, each where it is given: neither
/// may be empty or all whitespace. The title is checked first.
pub fn validate_template(title: Option<&str>, prompt: Option<&str>) -> (result: Result<(), AppError>)
    ensures
        result is Ok <==> (title matches Some(text) ==> !blank(text@)) && (prompt matches Some(text)
            ==> !blank(text@)),
        result matches Err(error) ==> error is InvalidInput && error.reason() == if (
        title matches Some(text) && blank(text@)) {
            "Title cannot be empty"@
        } else {
            "Prompt cannot be empty"@
        },
{
    if let Some(text) = title {
        if is_blank(text) {
            return Err(AppError::InvalidInput(String::from_str("Title cannot be empty")));
        }
    }
    if let Some(text) = prompt {
        if is_blank(text) {
            return Err(AppError::InvalidInput(String::from_str("Prompt cannot be empty")));
        }
    }
    Ok(())
}

/// The columns that an update of a template sets, in the order of their
/// parameters.
pub fn template_update_columns(
    title: bool,
    prompt: bool,
    template_text: bool,
    icon: bool,
    category: bool,
) -> (columns: Vec<String>)
    ensures
        views(columns@) == template_columns(title, prompt, template_text, icon, category),
        columns.len() <= 6,
{
    let mut columns: Vec<String> = Vec::new();
    columns.push(String::from_str("updated_at"));
    if title {
        columns.push(String::from_str("title"));
    }
    if prompt {
        columns.push(String::from_str("prompt"));
    }
    if template_text {
        columns.push(String::from_str("template_text"));
    }
    if icon {
        columns.push(String::from_str("icon"));
    }
    if category {
        columns.push(String::from_str("category"));
    }
    assert(views(columns@) =~= template_columns(title, prompt, template_text, icon, category));
    columns
}

/// The error for a template that the store does not have.
pub fn template_not_found(id: &str) -> (error: AppError)
    ensures
        error is NotFound,
        error.reason() == "Template not found: "@ + id@,
{
    let mut message = String::from_str("Template not found: ");
    message.append(id);
    AppError::NotFound(message)
}

/// Whether the template `id` may be deleted, given what the store says of
/// it: `is_default` is its flag, or `None` where there is no such template.
/// Default templates cannot be deleted.
pub fn check_deletable(id: &str, is_default: Option<bool>) -> (result: Result<(), AppError>)
    ensures
        result is Ok <==> is_default == Some(false),
        is_default is None ==> (result matches Err(error) && error is NotFound && error.reason()
            == "Template not found: "@ + id@),
        is_default == Some(true) ==> (result matches Err(error) && error is InvalidInput
            && error.reason() == "Cannot delete default templates"@),
{
    match is_default {
        None => Err(template_not_found(id)),
        Some(true) => Err(
            AppError::InvalidInput(String::from_str("Cannot delete default templates")),
        ),
        Some(false) => Ok(()),
    }
}

} // verus!
