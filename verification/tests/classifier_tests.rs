use theme_wallpaper::classifier::{classify, AttachmentKind};

#[test]
fn theme_extension_is_a_theme() {
    assert_eq!(classify("night.attheme"), AttachmentKind::Theme);
}

#[test]
fn theme_extension_is_case_insensitive() {
    assert_eq!(classify("NIGHT.ATTHEME"), AttachmentKind::Theme);
    assert_eq!(classify("Night.AtTheme"), AttachmentKind::Theme);
}

#[test]
fn every_listed_image_extension_is_an_image() {
    for name in [
        "a.png", "a.jpg", "a.jpeg", "a.bmp", "a.tiff", "a.webp", "A.PNG", "photo.JPeG",
    ] {
        assert_eq!(classify(name), AttachmentKind::Image, "{name}");
    }
}

#[test]
fn empty_name_is_unknown() {
    assert_eq!(classify(""), AttachmentKind::Unknown);
}

#[test]
fn name_without_extension_is_unknown() {
    assert_eq!(classify("README"), AttachmentKind::Unknown);
}

#[test]
fn unlisted_extension_is_unknown() {
    assert_eq!(classify("anim.gif"), AttachmentKind::Unknown);
    assert_eq!(classify("doc.pdf"), AttachmentKind::Unknown);
}

#[test]
fn only_the_final_extension_counts() {
    assert_eq!(classify("a.b.c.png"), AttachmentKind::Image);
    assert_eq!(classify("theme.attheme.png"), AttachmentKind::Image);
    assert_eq!(classify("archive.tar.attheme"), AttachmentKind::Theme);
    assert_eq!(classify("trailing.dot."), AttachmentKind::Unknown);
}

#[test]
fn non_ascii_names_classify_by_their_extension() {
    assert_eq!(classify("тема.attheme"), AttachmentKind::Theme);
    assert_eq!(classify("фото.png"), AttachmentKind::Image);
    assert_eq!(classify("тема"), AttachmentKind::Unknown);
}
