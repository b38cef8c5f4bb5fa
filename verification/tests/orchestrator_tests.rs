use std::io::Cursor;

use theme_wallpaper::codec::parse;
use theme_wallpaper::localization::Language;
use theme_wallpaper::orchestrator::{
    apply_wallpaper, check_reply, extract_wallpaper, inject_reply, inject_wallpaper,
    join_fetches, route_inbound, Attachment, ExtractReply, InboundRoute, ReplyAttachment,
    ReplyCheck, TransportError, WorkflowError,
};
use theme_wallpaper::value::Value;

#[test]
fn photo_routes_to_inject() {
    assert_eq!(route_inbound(&Attachment::Photo), InboundRoute::Inject);
}

#[test]
fn document_without_name_is_ignored() {
    let att = Attachment::Document { file_name: None };
    assert_eq!(route_inbound(&att), InboundRoute::Ignore);
}

#[test]
fn theme_document_routes_to_extract() {
    let att = Attachment::Document { file_name: Some(String::from("day.attheme")) };
    assert_eq!(
        route_inbound(&att),
        InboundRoute::Extract { file_name: String::from("day.attheme") }
    );
}

#[test]
fn image_document_routes_to_inject() {
    let att = Attachment::Document { file_name: Some(String::from("wall.webp")) };
    assert_eq!(route_inbound(&att), InboundRoute::Inject);
}

#[test]
fn unknown_extension_is_rejected() {
    let att = Attachment::Document { file_name: Some(String::from("wall.gif")) };
    assert_eq!(route_inbound(&att), InboundRoute::RejectUnknown);
    let att = Attachment::Document { file_name: Some(String::from("noextension")) };
    assert_eq!(route_inbound(&att), InboundRoute::RejectUnknown);
}

#[test]
fn reply_checks_cover_every_linkage() {
    assert_eq!(check_reply(&ReplyAttachment::Missing), ReplyCheck::RejectNoReply);
    assert_eq!(check_reply(&ReplyAttachment::NotADocument), ReplyCheck::RejectNoTheme);
    assert_eq!(
        check_reply(&ReplyAttachment::Document { file_name: None }),
        ReplyCheck::Ignore
    );
    assert_eq!(
        check_reply(&ReplyAttachment::Document { file_name: Some(String::from("n.attheme")) }),
        ReplyCheck::Proceed { theme_name: String::from("n.attheme") }
    );
    assert_eq!(
        check_reply(&ReplyAttachment::Document { file_name: Some(String::from("n.png")) }),
        ReplyCheck::RejectNoTheme
    );
}

#[test]
fn both_fetches_must_succeed() {
    let r = join_fetches(Ok(vec![1u8]), Ok(vec![2u8]));
    assert_eq!(r.unwrap(), (vec![1u8], vec![2u8]));
}

#[test]
fn one_failed_fetch_abandons_the_operation() {
    assert!(join_fetches(Err(TransportError), Ok(vec![2u8])).is_err());
    assert!(join_fetches(Ok(vec![1u8]), Err(TransportError)).is_err());
    assert!(join_fetches(Err(TransportError), Err(TransportError)).is_err());
}

#[test]
fn extract_returns_the_embedded_wallpaper() {
    let theme = b"a=1\nWPS\nXY".to_vec();
    let reply = extract_wallpaper(&theme, "night.attheme", Language::English).unwrap();
    assert_eq!(
        reply,
        ExtractReply::WallpaperDocument {
            file_name: String::from("Wallpaper of night.attheme.jpg"),
            bytes: b"XY".to_vec(),
            caption: String::from(
                "Here's the wallpaper!\n\nIf you want to change the wallpaper, send a picture in reply to your theme."
            ),
        }
    );
}

#[test]
fn extract_on_wallpaperless_theme_sends_the_no_wallpaper_message() {
    let theme = b"a=1\nb=2\n".to_vec();
    let reply = extract_wallpaper(&theme, "night.attheme", Language::English).unwrap();
    match reply {
        ExtractReply::NoWallpaperMessage { message } => {
            assert!(message.contains("doesn't have a wallpaper"));
        }
        ExtractReply::WallpaperDocument { .. } => {
            panic!("a theme without a wallpaper must never produce a document reply");
        }
    }
}

#[test]
fn extract_rejects_malformed_theme_bytes() {
    let theme = b"broken".to_vec();
    assert!(extract_wallpaper(&theme, "x.attheme", Language::English).is_err());
}

#[test]
fn injection_removes_legacy_keys_and_embeds_the_blob() {
    let theme = b"chat_wallpaper=-1\nfoo=bar\nchat_wallpaper_gradient_to=5\n".to_vec();
    let out = apply_wallpaper(&theme, vec![1, 2, 3]).unwrap();
    assert_eq!(out, b"foo=bar\nWPS\n\x01\x02\x03".to_vec());
    let (doc, _) = parse(&out).unwrap();
    assert_eq!(doc.get(&String::from("chat_wallpaper")), None);
    assert_eq!(doc.get(&String::from("chat_wallpaper_gradient_to")), None);
    assert_eq!(doc.get(&String::from("foo")), Some(&Value::Text(String::from("bar"))));
    assert_eq!(doc.wallpaper(), Some(&vec![1, 2, 3]));
}

#[test]
fn injection_replaces_an_existing_wallpaper() {
    let theme = b"foo=bar\nWPS\nOLD".to_vec();
    let out = apply_wallpaper(&theme, b"NEW!".to_vec()).unwrap();
    let (doc, _) = parse(&out).unwrap();
    assert_eq!(doc.wallpaper(), Some(&b"NEW!".to_vec()));
}

#[test]
fn injection_rejects_malformed_theme_bytes() {
    let theme = b"no newline".to_vec();
    assert!(apply_wallpaper(&theme, vec![9]).is_err());
}

#[test]
fn inject_flow_aborts_on_undecodable_image_bytes() {
    let theme = b"foo=bar\n".to_vec();
    let garbage = vec![1, 2, 3, 4];
    assert_eq!(inject_wallpaper(&theme, &garbage), Err(WorkflowError::Recode));
}

#[test]
fn inject_flow_recodes_the_image_and_embeds_it() {
    // A 2x2 PNG, built in memory.
    let img = image::RgbImage::from_pixel(2, 2, image::Rgb([10, 200, 30]));
    let mut png = Cursor::new(Vec::new());
    image::DynamicImage::ImageRgb8(img)
        .write_to(&mut png, image::ImageFormat::Png)
        .unwrap();
    let png_bytes = png.into_inner();

    let theme = b"chat_wallpaper=-1\nfoo=bar\n".to_vec();
    let out = inject_wallpaper(&theme, &png_bytes).unwrap();
    let (doc, _) = parse(&out).unwrap();
    assert_eq!(doc.get(&String::from("chat_wallpaper")), None);
    assert_eq!(doc.get(&String::from("foo")), Some(&Value::Text(String::from("bar"))));
    let wallpaper = doc.wallpaper().expect("the injected theme must carry a wallpaper");
    assert!(!wallpaper.is_empty());
    // The blob is a recode, not the input handed back: JPEG, not PNG.
    assert_ne!(*wallpaper, png_bytes);
    assert_eq!(&wallpaper[..2], &[0xFF, 0xD8]);
}

#[test]
fn inject_flow_rejects_malformed_theme_with_a_codec_error() {
    let img = image::RgbImage::from_pixel(1, 1, image::Rgb([0, 0, 0]));
    let mut png = Cursor::new(Vec::new());
    image::DynamicImage::ImageRgb8(img)
        .write_to(&mut png, image::ImageFormat::Png)
        .unwrap();
    let theme = b"broken".to_vec();
    match inject_wallpaper(&theme, &png.into_inner()) {
        Err(WorkflowError::Codec(_)) => {}
        other => panic!("expected a codec error, got {other:?}"),
    }
}

#[test]
fn inject_reply_reuses_the_theme_filename_and_localized_caption() {
    let img = image::RgbImage::from_pixel(2, 2, image::Rgb([1, 2, 3]));
    let mut png = Cursor::new(Vec::new());
    image::DynamicImage::ImageRgb8(img)
        .write_to(&mut png, image::ImageFormat::Png)
        .unwrap();
    let theme = b"foo=bar\n".to_vec();
    let reply =
        inject_reply(&theme, &png.into_inner(), "night.attheme", Language::English).unwrap();
    assert_eq!(reply.file_name, "night.attheme");
    assert_eq!(reply.caption, "Nice wallpaper, I've added it to the theme!");
    let (doc, _) = parse(&reply.bytes).unwrap();
    assert!(doc.wallpaper().is_some());
}

#[test]
fn inject_reply_aborts_on_undecodable_image_bytes() {
    let theme = b"foo=bar\n".to_vec();
    assert_eq!(
        inject_reply(&theme, &vec![9, 9, 9], "a.attheme", Language::English),
        Err(WorkflowError::Recode)
    );
}
