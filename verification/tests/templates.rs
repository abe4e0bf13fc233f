use mindscribe::db::statements::update_statement;
use mindscribe::db::templates::{
    check_deletable, template_not_found, template_update_columns, validate_template,
    TemplateCategory,
};
use mindscribe::error::AppError;

#[test]
fn test_create_empty_title_fails() {
    let result = validate_template(Some("   "), Some("prompt"));
    assert!(result.is_err());
}

#[test]
fn title_and_prompt_must_not_be_blank() {
    assert!(validate_template(Some("Test Template"), Some("Test prompt?")).is_ok());
    assert!(validate_template(None, None).is_ok());
    match validate_template(Some(" "), Some(" ")) {
        Err(AppError::InvalidInput(message)) => assert_eq!(message, "Title cannot be empty"),
        other => panic!("unexpected: {:?}", other),
    }
    match validate_template(Some("Title"), Some("")) {
        Err(AppError::InvalidInput(message)) => assert_eq!(message, "Prompt cannot be empty"),
        other => panic!("unexpected: {:?}", other),
    }
    match validate_template(None, Some("\n")) {
        Err(AppError::InvalidInput(message)) => assert_eq!(message, "Prompt cannot be empty"),
        other => panic!("unexpected: {:?}", other),
    }
}

#[test]
fn categories_have_names() {
    assert_eq!(TemplateCategory::Growth.as_str(), "growth");
    assert_eq!(TemplateCategory::Mindfulness.as_str(), "mindfulness");
    assert_eq!(TemplateCategory::Morning.as_str(), "morning");
    assert_eq!(TemplateCategory::Reflection.as_str(), "reflection");
    assert_eq!(TemplateCategory::parse("growth"), TemplateCategory::Growth);
    assert_eq!(TemplateCategory::parse("MINDFULNESS"), TemplateCategory::Mindfulness);
    assert_eq!(TemplateCategory::parse("Morning"), TemplateCategory::Morning);
    assert_eq!(TemplateCategory::parse("evening"), TemplateCategory::Reflection);
    assert_eq!("GROWTH".parse::<TemplateCategory>(), Ok(TemplateCategory::Growth));
    assert_eq!("".parse::<TemplateCategory>(), Ok(TemplateCategory::Reflection));
    assert_eq!(TemplateCategory::default(), TemplateCategory::Reflection);
}

#[test]
fn template_updates_number_their_parameters() {
    let columns = template_update_columns(true, false, false, true, false);
    assert_eq!(
        update_statement("journal_templates", &columns),
        "UPDATE journal_templates SET updated_at = ?1, title = ?2, icon = ?3 WHERE id = ?4"
    );
    let columns = template_update_columns(true, true, true, true, true);
    assert_eq!(
        update_statement("journal_templates", &columns),
        "UPDATE journal_templates SET updated_at = ?1, title = ?2, prompt = ?3, template_text = ?4, icon = ?5, category = ?6 WHERE id = ?7"
    );
    let columns = template_update_columns(false, false, false, false, false);
    assert_eq!(
        update_statement("journal_templates", &columns),
        "UPDATE journal_templates SET updated_at = ?1 WHERE id = ?2"
    );
}

#[test]
fn default_templates_cannot_be_deleted() {
    assert!(check_deletable("t1", Some(false)).is_ok());
    match check_deletable("t1", Some(true)) {
        Err(AppError::InvalidInput(message)) => {
            assert_eq!(message, "Cannot delete default templates")
        }
        other => panic!("unexpected: {:?}", other),
    }
    match check_deletable("t1", None) {
        Err(AppError::NotFound(message)) => assert_eq!(message, "Template not found: t1"),
        other => panic!("unexpected: {:?}", other),
    }
    assert_eq!(template_not_found("x").message(), "Template not found: x");
}
