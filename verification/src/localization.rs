//! Localized user-facing text, keyed by the requester's language tag.
//!
//! A stateless lookup: each message function maps a [`Language`] to the text
//! it stands for, and [`language_of`] maps a language tag to a [`Language`],
//! falling back to English for absent or unrecognized tags.
//!
//! All messages are plain text except [`help_message`] and
//! [`unknown_file_extension`], which carry MarkdownV2 markup (bold, inline
//! code, with the characters the format reserves escaped) and are meant to
//! be sent as markdown.

use vstd::prelude::*;

use crate::classifier::chars_vec;

verus! {

#[derive(Clone, Copy, PartialEq, Eq, Structural, Debug)]
pub enum Language {
    English,
    Russian,
    Persian,
}

pub open spec fn spec_language_of(code: Option<Seq<char>>) -> Language {
    if code == Some("ru"@) {
        Language::Russian
    } else if code == Some("fa"@) {
        Language::Persian
    } else {
        Language::English
    }
}

fn str_chars_eq(s: &str, lit: &str) -> (r: bool)
    ensures
        r == (s@ == lit@),
{
    let a = chars_vec(s);
    let b = chars_vec(lit);
    if a.len() != b.len() {
        proof {
            assert(a@.len() != b@.len());
        }
        return false;
    }
    let n = a.len();
    let mut i: usize = 0;
    while i < n
        invariant
            0 <= i <= n,
            n == a@.len() == b@.len(),
            a@ == s@,
            b@ == lit@,
            forall|k: int| 0 <= k < i ==> a@[k] == b@[k],
        decreases n - i,
    {
        if a[i] != b[i] {
            return false;
        }
        i = i + 1;
    }
    proof {
        assert(a@ =~= b@);
    }
    true
}

/// The language a tag selects: `ru` and `fa` are recognized; anything else,
/// or no tag at all, falls back to English.
pub fn language_of(code: Option<&str>) -> (l: Language)
    ensures
        l == spec_language_of(
            match code {
                Some(c) => Some(c@),
                None => None,
            },
        ),
{
    match code {
        None => Language::English,
        Some(c) => {
            if str_chars_eq(c, "ru") {
                Language::Russian
            } else if str_chars_eq(c, "fa") {
                Language::Persian
            } else {
                Language::English
            }
        }
    }
}

pub open spec fn spec_start_message(lang: Language) -> Seq<char> {
    match lang {
        Language::Russian => "Привет! Я — бот, который может вытаскивать обои из тем для Telegram на Android или ставить их. Просто отправь тему, а я отправлю обои."@,
        Language::Persian => "سلام! من یک ربات هستم که میتونم تصاویر رو در تم های اندروید تلگرام استخراج کنم و یا تصویر زمینه ای رو در تم ها قرار بدم. فقط کافیه یک تم به من ارسال کنی، بعدش من تصویر زمینه ی تم رو بهتون میفرستم."@,
        Language::English => "Hello! I'm a bot that can extract images from Android Telegram themes or put them. Just send me one, I'll send back the wallpaper."@,
    }
}

pub fn start_message(lang: Language) -> (r: String)
    ensures
        r@ == spec_start_message(lang),
{
    match lang {
        Language::Russian => String::from_str("Привет! Я — бот, который может вытаскивать обои из тем для Telegram на Android или ставить их. Просто отправь тему, а я отправлю обои."),
        Language::Persian => String::from_str("سلام! من یک ربات هستم که میتونم تصاویر رو در تم های اندروید تلگرام استخراج کنم و یا تصویر زمینه ای رو در تم ها قرار بدم. فقط کافیه یک تم به من ارسال کنی، بعدش من تصویر زمینه ی تم رو بهتون میفرستم."),
        Language::English => String::from_str("Hello! I'm a bot that can extract images from Android Telegram themes or put them. Just send me one, I'll send back the wallpaper."),
    }
}

/// The help text, in MarkdownV2 markup.
pub open spec fn spec_help_message(lang: Language) -> Seq<char> {
    match lang {
        Language::Russian => "*Привет\\!* Я — бот, который может вытаскивать обои из `.attheme` файлов или ставить их\\. Чтобы вытащить обои, просто отправь тему\\. Если хотите поставить обои, то отправьте мне тему, а затем картинку \\(как фото или документом `.jpg`, `.png`, `.bmp`, `.tiff`, `.webp`\\) ответом на эту тему\\. В ответ я отправлю тему с новыми обоями\\."@,
        Language::Persian => "سلام\\! من یک ربات هستم که میتونم تصویر زمینه ی فایل های تم رو استخراج کنم و با یک تصویر زمینه ی جدید در تم ها قرار بدم\\. برای استخراج تصویر زمینه ی یک تم فقط کافیه اون تم رو به من ارسال کنی\\. اگر میخوای یک تصویر زمینه ی جدید در تم اعمال کنی، تم مورد نظرتو به من ارسال کن و بعدش در پاسخ به تم ارسالی تصویر زمینه ی مورد نظرتو ارسال کن\\. یادت نره فرمت مجاز تصاویر `.jpg` و `.png` و `.bmp` و `.tiff` و `.webp` هستش\\. بعدش من تصویر زمینه ی قدیمی تم رو حذف و سپس تصویر زمینه مورد نظر شمارو در تم قرار میدم و ارسال میکنم\\."@,
        Language::English => "*Hello\\!* I'm a bot that can extract images from `.attheme` files or put images in them\\. To extract a wallpaper, just send me a theme\\. If you want to put a wallpaper, send me the theme and then send the image \\(as an image or a `.jpg`, `.png`, `.bmp`, `.tiff`, `.webp` document\\) in reply to that theme\\. I'll reply you with the new theme removing the old wallpaper\\."@,
    }
}

/// MarkdownV2-formatted; send it as markdown, not as plain text.
pub fn help_message(lang: Language) -> (r: String)
    ensures
        r@ == spec_help_message(lang),
{
    match lang {
        Language::Russian => String::from_str("*Привет\\!* Я — бот, который может вытаскивать обои из `.attheme` файлов или ставить их\\. Чтобы вытащить обои, просто отправь тему\\. Если хотите поставить обои, то отправьте мне тему, а затем картинку \\(как фото или документом `.jpg`, `.png`, `.bmp`, `.tiff`, `.webp`\\) ответом на эту тему\\. В ответ я отправлю тему с новыми обоями\\."),
        Language::Persian => String::from_str("سلام\\! من یک ربات هستم که میتونم تصویر زمینه ی فایل های تم رو استخراج کنم و با یک تصویر زمینه ی جدید در تم ها قرار بدم\\. برای استخراج تصویر زمینه ی یک تم فقط کافیه اون تم رو به من ارسال کنی\\. اگر میخوای یک تصویر زمینه ی جدید در تم اعمال کنی، تم مورد نظرتو به من ارسال کن و بعدش در پاسخ به تم ارسالی تصویر زمینه ی مورد نظرتو ارسال کن\\. یادت نره فرمت مجاز تصاویر `.jpg` و `.png` و `.bmp` و `.tiff` و `.webp` هستش\\. بعدش من تصویر زمینه ی قدیمی تم رو حذف و سپس تصویر زمینه مورد نظر شمارو در تم قرار میدم و ارسال میکنم\\."),
        Language::English => String::from_str("*Hello\\!* I'm a bot that can extract images from `.attheme` files or put images in them\\. To extract a wallpaper, just send me a theme\\. If you want to put a wallpaper, send me the theme and then send the image \\(as an image or a `.jpg`, `.png`, `.bmp`, `.tiff`, `.webp` document\\) in reply to that theme\\. I'll reply you with the new theme removing the old wallpaper\\."),
    }
}

pub open spec fn spec_image_caption(lang: Language) -> Seq<char> {
    match lang {
        Language::Russian => "Вот обои!\n\nЕсли хочешь поменять обои в теме, отправь картинку в ответ на свою тему."@,
        Language::Persian => "بفرما، اینم تصویر زمینه تم!\n\nاگر میخوای پس زمینه رو تغییر بدی، یک تصویر در پاسخ به فایل تم بفرست."@,
        Language::English => "Here's the wallpaper!\n\nIf you want to change the wallpaper, send a picture in reply to your theme."@,
    }
}

pub fn image_caption(lang: Language) -> (r: String)
    ensures
        r@ == spec_image_caption(lang),
{
    match lang {
        Language::Russian => String::from_str("Вот обои!\n\nЕсли хочешь поменять обои в теме, отправь картинку в ответ на свою тему."),
        Language::Persian => String::from_str("بفرما، اینم تصویر زمینه تم!\n\nاگر میخوای پس زمینه رو تغییر بدی، یک تصویر در پاسخ به فایل تم بفرست."),
        Language::English => String::from_str("Here's the wallpaper!\n\nIf you want to change the wallpaper, send a picture in reply to your theme."),
    }
}

pub open spec fn spec_image_file_name(lang: Language, theme_name: Seq<char>) -> Seq<char> {
    match lang {
        Language::Russian => "Обои из "@ + theme_name + ".jpg"@,
        Language::Persian => "تصویر زمینه "@ + theme_name + ".jpg"@,
        Language::English => "Wallpaper of "@ + theme_name + ".jpg"@,
    }
}

/// The filename for an extracted wallpaper, built around the theme's name.
pub fn image_file_name(lang: Language, theme_name: &str) -> (r: String)
    ensures
        r@ == spec_image_file_name(lang, theme_name@),
{
    let prefix = match lang {
        Language::Russian => String::from_str("Обои из "),
        Language::Persian => String::from_str("تصویر زمینه "),
        Language::English => String::from_str("Wallpaper of "),
    };
    prefix.concat(theme_name).concat(".jpg")
}

pub open spec fn spec_image_with_no_reply(lang: Language) -> Seq<char> {
    match lang {
        Language::Russian => "Если ты хочешь поставить обои в теме, то картинку надо отправить ответом на тему."@,
        Language::Persian => "اِهِم! اگر میخوای تصویر زمینه جدید در تم قرار بدی، باید تصویر زمینه رو در پاسخ به فایل تم ارسال کنی :)"@,
        Language::English => "Ehm, if you want me to put a wallpaper inside a theme, you should reply to the message with that theme."@,
    }
}

pub fn image_with_no_reply(lang: Language) -> (r: String)
    ensures
        r@ == spec_image_with_no_reply(lang),
{
    match lang {
        Language::Russian => String::from_str("Если ты хочешь поставить обои в теме, то картинку надо отправить ответом на тему."),
        Language::Persian => String::from_str("اِهِم! اگر میخوای تصویر زمینه جدید در تم قرار بدی، باید تصویر زمینه رو در پاسخ به فایل تم ارسال کنی :)"),
        Language::English => String::from_str("Ehm, if you want me to put a wallpaper inside a theme, you should reply to the message with that theme."),
    }
}

pub open spec fn spec_no_theme_in_reply(lang: Language) -> Seq<char> {
    match lang {
        Language::Russian => "Хм, кажется, что в сообщении, на которое ты ответил, нет темы. Попробуй снова."@,
        Language::Persian => "هومم، به نظر میرسه پیام شما در پاسخ به فایل تم نیست! دوباره امحتان کن."@,
        Language::English => "Hmm, doesn't seem the message you replied to has a theme. Try again."@,
    }
}

pub fn no_theme_in_reply(lang: Language) -> (r: String)
    ensures
        r@ == spec_no_theme_in_reply(lang),
{
    match lang {
        Language::Russian => String::from_str("Хм, кажется, что в сообщении, на которое ты ответил, нет темы. Попробуй снова."),
        Language::Persian => String::from_str("هومم، به نظر میرسه پیام شما در پاسخ به فایل تم نیست! دوباره امحتان کن."),
        Language::English => String::from_str("Hmm, doesn't seem the message you replied to has a theme. Try again."),
    }
}

pub open spec fn spec_theme_caption(lang: Language) -> Seq<char> {
    match lang {
        Language::Russian => "Классные обои, поставил их в тему!"@,
        Language::Persian => "تصویر زمینه مناسبیه! من این تصویر زمینه رو در تم قرار دادم!"@,
        Language::English => "Nice wallpaper, I've added it to the theme!"@,
    }
}

pub fn theme_caption(lang: Language) -> (r: String)
    ensures
        r@ == spec_theme_caption(lang),
{
    match lang {
        Language::Russian => String::from_str("Классные обои, поставил их в тему!"),
        Language::Persian => String::from_str("تصویر زمینه مناسبیه! من این تصویر زمینه رو در تم قرار دادم!"),
        Language::English => String::from_str("Nice wallpaper, I've added it to the theme!"),
    }
}

pub open spec fn spec_theme_with_no_image(lang: Language) -> Seq<char> {
    match lang {
        Language::Russian => "Хм, кажется, что в этой теме нет обоев. Но я могу поставить обои в неё! Просто отправь сообщение ответом на эту тему."@,
        Language::Persian => "عجب! به نظر میرسه تم ارسالی تصویر زمینه ای نداره. ولی نگران نباش! من میتونم یک تصویر زمینه بهش اضافه کنم. کافیه یک تصویر زمینه در پاسخ به این تم به من ارسال کنی."@,
        Language::English => "Hmm, it looks like your theme doesn't have a wallpaper. But I can put one inside it! Just send an image in reply to this theme."@,
    }
}

pub fn theme_with_no_image(lang: Language) -> (r: String)
    ensures
        r@ == spec_theme_with_no_image(lang),
{
    match lang {
        Language::Russian => String::from_str("Хм, кажется, что в этой теме нет обоев. Но я могу поставить обои в неё! Просто отправь сообщение ответом на эту тему."),
        Language::Persian => String::from_str("عجب! به نظر میرسه تم ارسالی تصویر زمینه ای نداره. ولی نگران نباش! من میتونم یک تصویر زمینه بهش اضافه کنم. کافیه یک تصویر زمینه در پاسخ به این تم به من ارسال کنی."),
        Language::English => String::from_str("Hmm, it looks like your theme doesn't have a wallpaper. But I can put one inside it! Just send an image in reply to this theme."),
    }
}

/// The unsupported-extension text, in MarkdownV2 markup.
pub open spec fn spec_unknown_file_extension(lang: Language) -> Seq<char> {
    match lang {
        Language::Russian => "Хм, я не знаю такое расширение темы или картинки\\. У тем должно быть расширение `.attheme`, у картинок — `.jpg`, `.png`, `.bmp`, `.tiff`, `.webp`\\."@,
        Language::Persian => "من بعضی تمها یا فایلها و تصاویر رو نمیشناسم\\! فرمت فایلهای تم `.attheme` هست\\. فرمت تصاویر هم `.jpg` و `.png` و `.bmp` و `.tiff` و `.webp` میتونم قبول کنم\\."@,
        Language::English => "Hmm, I don't know such theme or image extension\\. For themes, it must be `.attheme`; for images, it must be a `.jpg`, `.png`, `.bmp`, `.tiff`, `.webp` file\\."@,
    }
}

/// MarkdownV2-formatted; send it as markdown, not as plain text.
pub fn unknown_file_extension(lang: Language) -> (r: String)
    ensures
        r@ == spec_unknown_file_extension(lang),
{
    match lang {
        Language::Russian => String::from_str("Хм, я не знаю такое расширение темы или картинки\\. У тем должно быть расширение `.attheme`, у картинок — `.jpg`, `.png`, `.bmp`, `.tiff`, `.webp`\\."),
        Language::Persian => String::from_str("من بعضی تمها یا فایلها و تصاویر رو نمیشناسم\\! فرمت فایلهای تم `.attheme` هست\\. فرمت تصاویر هم `.jpg` و `.png` و `.bmp` و `.tiff` و `.webp` میتونم قبول کنم\\."),
        Language::English => String::from_str("Hmm, I don't know such theme or image extension\\. For themes, it must be `.attheme`; for images, it must be a `.jpg`, `.png`, `.bmp`, `.tiff`, `.webp` file\\."),
    }
}

} // verus!
