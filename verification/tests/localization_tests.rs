use theme_wallpaper::localization::{
    help_message, image_caption, image_file_name, image_with_no_reply, language_of,
    no_theme_in_reply, start_message, theme_caption, theme_with_no_image,
    unknown_file_extension, Language,
};

#[test]
fn language_tags_map_to_languages() {
    assert_eq!(language_of(None), Language::English);
    assert_eq!(language_of(Some("ru")), Language::Russian);
    assert_eq!(language_of(Some("fa")), Language::Persian);
    assert_eq!(language_of(Some("en")), Language::English);
    assert_eq!(language_of(Some("de")), Language::English);
    assert_eq!(language_of(Some("ru-RU")), Language::English);
}

#[test]
fn extracted_wallpaper_file_name_wraps_the_theme_name() {
    assert_eq!(
        image_file_name(Language::English, "night.attheme"),
        "Wallpaper of night.attheme.jpg"
    );
    assert_eq!(image_file_name(Language::Russian, "t"), "Обои из t.jpg");
    assert_eq!(image_file_name(Language::Persian, "t"), "تصویر زمینه t.jpg");
}

#[test]
fn theme_caption_is_localized() {
    assert_eq!(
        theme_caption(Language::English),
        "Nice wallpaper, I've added it to the theme!"
    );
    assert_eq!(theme_caption(Language::Russian), "Классные обои, поставил их в тему!");
}

#[test]
fn every_message_exists_in_every_language() {
    for lang in [Language::English, Language::Russian, Language::Persian] {
        assert!(!start_message(lang).is_empty());
        assert!(!help_message(lang).is_empty());
        assert!(!image_caption(lang).is_empty());
        assert!(!image_with_no_reply(lang).is_empty());
        assert!(!no_theme_in_reply(lang).is_empty());
        assert!(!theme_caption(lang).is_empty());
        assert!(!theme_with_no_image(lang).is_empty());
        assert!(!unknown_file_extension(lang).is_empty());
    }
}

#[test]
fn help_names_the_theme_and_image_extensions() {
    let help = help_message(Language::English);
    assert!(help.contains(".attheme"));
    // The help and unknown-extension texts carry MarkdownV2 markup.
    assert!(help.starts_with("*Hello\\!*"));
    assert!(help.contains("`.attheme`"));
    for ext in [".jpg", ".png", ".bmp", ".tiff", ".webp"] {
        assert!(help.contains(ext), "{ext}");
    }
    let unknown = unknown_file_extension(Language::English);
    assert!(unknown.contains(".attheme"));
    assert!(unknown.contains(".webp"));
}
