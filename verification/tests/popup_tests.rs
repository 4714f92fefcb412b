use thoth_cli::TitlePopup;
use thoth_cli::TitleSelectPopup;

#[test]
fn test_new_title_popup() {
    let popup = TitlePopup::new();
    assert_eq!(popup.title, "");
    assert!(!popup.visible);
}

#[test]
fn test_title_popup_visibility() {
    let mut popup = TitlePopup::new();
    popup.visible = true;
    assert!(popup.visible);
}

#[test]
fn test_title_popup_set_title() {
    let mut popup = TitlePopup::new();
    popup.title = "New Title".to_string();
    assert_eq!(popup.title, "New Title");
}

#[test]
fn test_new_title_select_popup() {
    let popup = TitleSelectPopup::new();
    assert!(popup.titles.is_empty());
    assert_eq!(popup.selected_index, 0);
    assert!(!popup.visible);
}

#[test]
fn test_title_select_popup_add_titles() {
    let mut popup = TitleSelectPopup::new();
    popup.titles = vec!["Title1".to_string(), "Title2".to_string()];
    assert_eq!(popup.titles.len(), 2);
    assert_eq!(popup.titles[0], "Title1");
    assert_eq!(popup.titles[1], "Title2");
}

#[test]
fn test_edit_commands_popup_starts_hidden() {
    let popup = thoth_cli::EditCommandsPopup::new();
    assert!(!popup.visible);
}
