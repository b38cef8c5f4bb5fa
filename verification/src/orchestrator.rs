//! The wallpaper exchange workflows: classify an inbound attachment, check
//! reply linkage, join the two concurrent fetches, and drive the codec to
//! extract or inject a wallpaper.
//!
//! Everything here is a decision from plain values to plain values; the
//! transport (fetching attachment bytes, sending replies) stays outside and
//! hands bytes in and takes replies out.

use vstd::prelude::*;

use crate::classifier::{classify, spec_classify, AttachmentKind};
use crate::codec::{parse, parse_model, serialize, serialize_model, FormatError};
use crate::document::{
    lookup, remove_key, wf_doc, DocumentModel,
};
use crate::localization::{
    image_caption, image_file_name, spec_image_caption, spec_image_file_name,
    spec_theme_caption, spec_theme_with_no_image, theme_caption, theme_with_no_image,
    Language,
};
use crate::recode::{jpeg_recode_of, jpeg_recode_ok, recode_jpeg_raw};
use crate::value::ColorSignature;

verus! {

/// Why a wallpaper workflow failed.
#[derive(Clone, Copy, PartialEq, Eq, Structural, Debug)]
pub enum WorkflowError {
    /// The theme bytes were rejected by the codec.
    Codec(FormatError),
    /// The image bytes could not be decoded and re-encoded.
    Recode,
}

/// An inbound attachment: a named binary document, or a photo, which carries
/// no filename and always counts as an image.
#[derive(Clone, PartialEq, Debug)]
pub enum Attachment {
    Document { file_name: Option<String> },
    Photo,
}

/// The model of an inbound routing decision.
pub enum RouteModel {
    /// The attachment is a theme: run the extract flow on this filename.
    Extract(Seq<char>),
    /// The attachment is an image: run the inject flow.
    Inject,
    /// The extension is neither a theme nor an image: tell the sender.
    RejectUnknown,
    /// The attachment carries no filename: drop the request silently.
    Ignore,
}

#[derive(Clone, PartialEq, Debug)]
pub enum InboundRoute {
    Extract { file_name: String },
    Inject,
    RejectUnknown,
    Ignore,
}

impl View for InboundRoute {
    type V = RouteModel;

    open spec fn view(&self) -> RouteModel {
        match self {
            InboundRoute::Extract { file_name } => RouteModel::Extract(file_name@),
            InboundRoute::Inject => RouteModel::Inject,
            InboundRoute::RejectUnknown => RouteModel::RejectUnknown,
            InboundRoute::Ignore => RouteModel::Ignore,
        }
    }
}

pub open spec fn spec_route(att: Attachment) -> RouteModel {
    match att {
        Attachment::Photo => RouteModel::Inject,
        Attachment::Document { file_name: None } => RouteModel::Ignore,
        Attachment::Document { file_name: Some(n) } => match spec_classify(n@) {
            AttachmentKind::Theme => RouteModel::Extract(n@),
            AttachmentKind::Image => RouteModel::Inject,
            AttachmentKind::Unknown => RouteModel::RejectUnknown,
        },
    }
}

/// Route an inbound attachment: a filename-less document is dropped
/// silently, a theme starts the extract flow, an image starts the inject
/// flow, and anything else is rejected as an unknown extension.
pub fn route_inbound(att: &Attachment) -> (r: InboundRoute)
    ensures
        r@ == spec_route(*att),
{
    match att {
        Attachment::Photo => InboundRoute::Inject,
        Attachment::Document { file_name: None } => InboundRoute::Ignore,
        Attachment::Document { file_name: Some(n) } => match classify(n.as_str()) {
            AttachmentKind::Theme => InboundRoute::Extract { file_name: n.clone() },
            AttachmentKind::Image => InboundRoute::Inject,
            AttachmentKind::Unknown => InboundRoute::RejectUnknown,
        },
    }
}

/// What the message an image replies to carries.
#[derive(Clone, PartialEq, Debug)]
pub enum ReplyAttachment {
    /// The image was sent without replying to anything.
    Missing,
    /// The replied-to message carries no document.
    NotADocument,
    /// The replied-to message carries a document with this filename.
    Document { file_name: Option<String> },
}

/// The model of a reply-linkage decision.
pub enum ReplyCheckModel {
    /// The reply is a theme with this filename: fetch it and proceed.
    Proceed(Seq<char>),
    /// No reply at all: tell the sender how to pair the image.
    RejectNoReply,
    /// The reply is not a theme: tell the sender.
    RejectNoTheme,
    /// The reply's document carries no filename: drop the request silently.
    Ignore,
}

#[derive(Clone, PartialEq, Debug)]
pub enum ReplyCheck {
    Proceed { theme_name: String },
    RejectNoReply,
    RejectNoTheme,
    Ignore,
}

impl View for ReplyCheck {
    type V = ReplyCheckModel;

    open spec fn view(&self) -> ReplyCheckModel {
        match self {
            ReplyCheck::Proceed { theme_name } => ReplyCheckModel::Proceed(theme_name@),
            ReplyCheck::RejectNoReply => ReplyCheckModel::RejectNoReply,
            ReplyCheck::RejectNoTheme => ReplyCheckModel::RejectNoTheme,
            ReplyCheck::Ignore => ReplyCheckModel::Ignore,
        }
    }
}

pub open spec fn spec_check_reply(r: ReplyAttachment) -> ReplyCheckModel {
    match r {
        ReplyAttachment::Missing => ReplyCheckModel::RejectNoReply,
        ReplyAttachment::NotADocument => ReplyCheckModel::RejectNoTheme,
        ReplyAttachment::Document { file_name: None } => ReplyCheckModel::Ignore,
        ReplyAttachment::Document { file_name: Some(n) } => if spec_classify(n@)
            is Theme {
            ReplyCheckModel::Proceed(n@)
        } else {
            ReplyCheckModel::RejectNoTheme
        },
    }
}

/// Check the reply linkage of the inject flow: the inbound image must reply
/// to a message whose document classifies as a theme.
pub fn check_reply(reply: &ReplyAttachment) -> (r: ReplyCheck)
    ensures
        r@ == spec_check_reply(*reply),
{
    match reply {
        ReplyAttachment::Missing => ReplyCheck::RejectNoReply,
        ReplyAttachment::NotADocument => ReplyCheck::RejectNoTheme,
        ReplyAttachment::Document { file_name: None } => ReplyCheck::Ignore,
        ReplyAttachment::Document { file_name: Some(n) } => match classify(n.as_str()) {
            AttachmentKind::Theme => ReplyCheck::Proceed { theme_name: n.clone() },
            _ => ReplyCheck::RejectNoTheme,
        },
    }
}

/// A failed transfer; the workflow carries no detail about it.
#[derive(Clone, Copy, PartialEq, Eq, Structural, Debug)]
pub struct TransportError;

/// The all-or-nothing barrier of the inject flow's two concurrent fetches:
/// the pair of results comes through if and only if both transfers
/// succeeded; a single failure abandons both, and no partial result is
/// handed on.
pub fn join_fetches(
    image: Result<Vec<u8>, TransportError>,
    theme: Result<Vec<u8>, TransportError>,
) -> (r: Result<(Vec<u8>, Vec<u8>), TransportError>)
    ensures
        r is Ok <==> (image is Ok && theme is Ok),
        r matches Ok(p) ==> (image matches Ok(ib) && p.0@ == ib@) && (theme matches Ok(tb)
            && p.1@ == tb@),
{
    match (image, theme) {
        (Ok(i), Ok(t)) => Ok((i, t)),
        _ => Err(TransportError),
    }
}

fn copy_bytes(src: &Vec<u8>) -> (r: Vec<u8>)
    ensures
        r@ == src@,
{
    let mut r: Vec<u8> = Vec::new();
    let n = src.len();
    let mut i: usize = 0;
    while i < n
        invariant
            0 <= i <= n,
            n == src@.len(),
            r@ == src@.take(i as int),
        decreases n - i,
    {
        r.push(src[i]);
        proof {
            assert(r@ =~= src@.take(i + 1));
        }
        i = i + 1;
    }
    proof {
        assert(src@.take(n as int) =~= src@);
    }
    r
}

/// The model of the extract flow's reply.
pub enum ExtractReplyModel {
    WallpaperDocument { file_name: Seq<char>, bytes: Seq<u8>, caption: Seq<char> },
    NoWallpaperMessage { message: Seq<char> },
}

/// The reply the extract flow produces: the embedded wallpaper as a named
/// binary document with a caption, or a message that the theme has none.
#[derive(Clone, PartialEq, Debug)]
pub enum ExtractReply {
    WallpaperDocument { file_name: String, bytes: Vec<u8>, caption: String },
    NoWallpaperMessage { message: String },
}

impl View for ExtractReply {
    type V = ExtractReplyModel;

    open spec fn view(&self) -> ExtractReplyModel {
        match self {
            ExtractReply::WallpaperDocument { file_name, bytes, caption } => {
                ExtractReplyModel::WallpaperDocument {
                    file_name: file_name@,
                    bytes: bytes@,
                    caption: caption@,
                }
            }
            ExtractReply::NoWallpaperMessage { message } => {
                ExtractReplyModel::NoWallpaperMessage { message: message@ }
            }
        }
    }
}

/// The extract flow after the theme bytes arrive: parse them, and either
/// hand back the embedded wallpaper under a localized filename and caption,
/// or the localized "no wallpaper in this theme" message — never a document
/// reply — when the theme has no wallpaper. Malformed bytes are rejected
/// with the codec's error.
pub fn extract_wallpaper(theme_bytes: &Vec<u8>, theme_name: &str, lang: Language) -> (r: Result<
    ExtractReply,
    FormatError,
>)
    ensures
        r is Ok <==> parse_model(theme_bytes@) is Ok,
        parse_model(theme_bytes@) matches Err(e) ==> r matches Err(e2) && e2 == e,
        parse_model(theme_bytes@) matches Ok(p) ==> r matches Ok(rep) && rep@ == (
        match p.0.wallpaper {
            Some(w) => ExtractReplyModel::WallpaperDocument {
                file_name: spec_image_file_name(lang, theme_name@),
                bytes: w,
                caption: spec_image_caption(lang),
            },
            None => ExtractReplyModel::NoWallpaperMessage {
                message: spec_theme_with_no_image(lang),
            },
        }),
{
    match parse(theme_bytes) {
        Err(e) => Err(e),
        Ok((doc, _detected)) => match doc.wallpaper() {
            Some(w) => {
                let bytes = copy_bytes(w);
                Ok(
                    ExtractReply::WallpaperDocument {
                        file_name: image_file_name(lang, theme_name),
                        bytes,
                        caption: image_caption(lang),
                    },
                )
            }
            None => Ok(
                ExtractReply::NoWallpaperMessage { message: theme_with_no_image(lang) },
            ),
        },
    }
}

/// The key a theme's legacy wallpaper reference lives under.
pub open spec fn chat_wallpaper_key() -> Seq<char> {
    "chat_wallpaper"@
}

/// The second key of the superseded dual-wallpaper format.
pub open spec fn gradient_wallpaper_key() -> Seq<char> {
    "chat_wallpaper_gradient_to"@
}

/// A parsed theme after injection: both legacy wallpaper keys removed, the
/// new blob embedded.
pub open spec fn inject_model(d: DocumentModel, w: Seq<u8>) -> DocumentModel {
    DocumentModel {
        variables: remove_key(
            remove_key(d.variables, chat_wallpaper_key()),
            gradient_wallpaper_key(),
        ),
        wallpaper: Some(w),
    }
}

/// Injection correctness: after injecting a non-empty blob into a
/// well-formed document, neither legacy wallpaper key is present, every
/// other key is bound exactly as before, and the document's wallpaper is the
/// new, non-empty blob.
pub proof fn lemma_inject_correct(d: DocumentModel, w: Seq<u8>)
    requires
        wf_doc(d),
        w.len() > 0,
    ensures
        lookup(inject_model(d, w).variables, chat_wallpaper_key()) is None,
        lookup(inject_model(d, w).variables, gradient_wallpaper_key()) is None,
        forall|k: Seq<char>|
            k != chat_wallpaper_key() && k != gradient_wallpaper_key() ==> lookup(
                inject_model(d, w).variables,
                k,
            ) == lookup(d.variables, k),
        inject_model(d, w).wallpaper == Some(w),
        wf_doc(inject_model(d, w)),
{
    let v1 = remove_key(d.variables, chat_wallpaper_key());
    let v2 = remove_key(v1, gradient_wallpaper_key());
    reveal_strlit("chat_wallpaper");
    reveal_strlit("chat_wallpaper_gradient_to");
    assert(chat_wallpaper_key().len() == 14);
    assert(gradient_wallpaper_key().len() == 26);
    crate::document::lemma_remove_key_gone(v1, gradient_wallpaper_key());
    crate::document::lemma_remove_key_gone(d.variables, chat_wallpaper_key());
    crate::document::lemma_remove_key_other(
        v1,
        gradient_wallpaper_key(),
        chat_wallpaper_key(),
    );
    assert forall|k: Seq<char>|
        k != chat_wallpaper_key() && k != gradient_wallpaper_key() implies lookup(v2, k)
        == lookup(d.variables, k) by {
        crate::document::lemma_remove_key_other(v1, gradient_wallpaper_key(), k);
        crate::document::lemma_remove_key_other(d.variables, chat_wallpaper_key(), k);
    }
    crate::document::lemma_remove_key_wf(d.variables, chat_wallpaper_key());
    crate::document::lemma_remove_key_wf(v1, gradient_wallpaper_key());
}

/// Embed an already-recoded, non-empty wallpaper blob into the theme bytes:
/// parse, drop both legacy wallpaper keys, set the blob, and serialize under
/// the hexadecimal signature. Succeeds exactly when the theme bytes parse.
pub fn apply_wallpaper(theme_bytes: &Vec<u8>, wallpaper: Vec<u8>) -> (r: Result<
    Vec<u8>,
    FormatError,
>)
    requires
        wallpaper@.len() > 0,
    ensures
        r is Ok <==> parse_model(theme_bytes@) is Ok,
        parse_model(theme_bytes@) matches Err(e) ==> r matches Err(e2) && e2 == e,
        parse_model(theme_bytes@) matches Ok(p) ==> r matches Ok(out) && out@ == serialize_model(
            inject_model(p.0, wallpaper@),
            ColorSignature::Hex,
        ),
{
    match parse(theme_bytes) {
        Err(e) => Err(e),
        Ok((mut doc, _detected)) => {
            let k1 = String::from_str("chat_wallpaper");
            doc.remove(&k1);
            let k2 = String::from_str("chat_wallpaper_gradient_to");
            doc.remove(&k2);
            doc.set_wallpaper(wallpaper);
            Ok(serialize(&doc, ColorSignature::Hex))
        }
    }
}

/// The inject flow after both fetches arrive: recode the image to a
/// maximum-quality JPEG, then embed it. Succeeds exactly when the image
/// recodes to a non-empty blob and the theme bytes parse; undecodable image
/// bytes or an empty recode abort with `Recode`, and theme bytes the codec
/// rejects abort with `Codec`.
pub fn inject_wallpaper(theme_bytes: &Vec<u8>, image_bytes: &Vec<u8>) -> (r: Result<
    Vec<u8>,
    WorkflowError,
>)
    ensures
        r is Ok <==> (parse_model(theme_bytes@) is Ok && jpeg_recode_ok(image_bytes@)
            && jpeg_recode_of(image_bytes@).len() > 0),
        r matches Ok(out) ==> parse_model(theme_bytes@) matches Ok(p) && out@ == serialize_model(
            inject_model(p.0, jpeg_recode_of(image_bytes@)),
            ColorSignature::Hex,
        ),
        r == Err::<Vec<u8>, WorkflowError>(WorkflowError::Recode) <==> (!jpeg_recode_ok(
            image_bytes@,
        ) || jpeg_recode_of(image_bytes@).len() == 0),
        r matches Err(WorkflowError::Codec(e)) ==> parse_model(theme_bytes@) matches Err(e2)
            && e2 == e,
        (jpeg_recode_ok(image_bytes@) && jpeg_recode_of(image_bytes@).len() > 0) ==> (
        parse_model(theme_bytes@) matches Err(e) ==> r == Err::<Vec<u8>, WorkflowError>(
            WorkflowError::Codec(e),
        )),
{
    let jpeg = match recode_jpeg_raw(image_bytes) {
        Ok(j) => j,
        Err(_) => {
            return Err(WorkflowError::Recode);
        }
    };
    if jpeg.is_empty() {
        return Err(WorkflowError::Recode);
    }
    match apply_wallpaper(theme_bytes, jpeg) {
        Ok(out) => Ok(out),
        Err(e) => Err(WorkflowError::Codec(e)),
    }
}

/// The model of the inject flow's reply.
pub struct InjectReplyModel {
    pub file_name: Seq<char>,
    pub bytes: Seq<u8>,
    pub caption: Seq<char>,
}

/// The reply the inject flow produces: the injected theme as a binary
/// document under the theme's own filename, with a localized caption.
#[derive(Clone, PartialEq, Debug)]
pub struct InjectReply {
    pub file_name: String,
    pub bytes: Vec<u8>,
    pub caption: String,
}

impl View for InjectReply {
    type V = InjectReplyModel;

    open spec fn view(&self) -> InjectReplyModel {
        InjectReplyModel {
            file_name: self.file_name@,
            bytes: self.bytes@,
            caption: self.caption@,
        }
    }
}

/// The inject flow's reply: the injected theme bytes under the theme's
/// filename, unchanged, with the localized success caption. Succeeds exactly
/// when `inject_wallpaper` does, and fails with the same errors.
pub fn inject_reply(
    theme_bytes: &Vec<u8>,
    image_bytes: &Vec<u8>,
    theme_name: &str,
    lang: Language,
) -> (r: Result<InjectReply, WorkflowError>)
    ensures
        r is Ok <==> (parse_model(theme_bytes@) is Ok && jpeg_recode_ok(image_bytes@)
            && jpeg_recode_of(image_bytes@).len() > 0),
        r matches Ok(rep) ==> parse_model(theme_bytes@) matches Ok(p) && rep@.file_name
            == theme_name@ && rep@.caption == spec_theme_caption(lang) && rep@.bytes
            == serialize_model(
            inject_model(p.0, jpeg_recode_of(image_bytes@)),
            ColorSignature::Hex,
        ),
        r == Err::<InjectReply, WorkflowError>(WorkflowError::Recode) <==> (!jpeg_recode_ok(
            image_bytes@,
        ) || jpeg_recode_of(image_bytes@).len() == 0),
        r matches Err(WorkflowError::Codec(e)) ==> parse_model(theme_bytes@) matches Err(e2)
            && e2 == e,
        (jpeg_recode_ok(image_bytes@) && jpeg_recode_of(image_bytes@).len() > 0) ==> (
        parse_model(theme_bytes@) matches Err(e) ==> r == Err::<InjectReply, WorkflowError>(
            WorkflowError::Codec(e),
        )),
{
    match inject_wallpaper(theme_bytes, image_bytes) {
        Ok(bytes) => Ok(
            InjectReply {
                file_name: String::from_str(theme_name),
                bytes,
                caption: theme_caption(lang),
            },
        ),
        Err(e) => Err(e),
    }
}

} // verus!
