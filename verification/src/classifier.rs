//! The attachment classifier: a filename is a theme document, a recognized
//! raster-image container, or unknown — decided by its final extension,
//! case-insensitively.

use vstd::prelude::*;

verus! {

/// What a filename denotes. Every filename classifies as exactly one of
/// these; a name without a dot is `Unknown`.
#[derive(Clone, Copy, PartialEq, Eq, Structural, Debug)]
pub enum AttachmentKind {
    Theme,
    Image,
    Unknown,
}

/// ASCII upper-case letters fold to lower case; everything else is kept.
pub open spec fn lower_char(c: char) -> char {
    if 'A' <= c && c <= 'Z' {
        (((c as u8) + 32) as char)
    } else {
        c
    }
}

pub open spec fn to_lower(s: Seq<char>) -> Seq<char> {
    s.map(|i: int, c: char| lower_char(c))
}

/// The index of the last `.`, or `-1` if there is none.
pub open spec fn last_dot(s: Seq<char>) -> int
    decreases s.len(),
{
    if s.len() == 0 {
        -1
    } else if s.last() == '.' {
        s.len() - 1
    } else {
        last_dot(s.drop_last())
    }
}

/// The characters after the last dot; `None` for a name without a dot.
pub open spec fn extension_of(s: Seq<char>) -> Option<Seq<char>> {
    let p = last_dot(s);
    if p < 0 {
        None
    } else {
        Some(s.subrange(p + 1, s.len() as int))
    }
}

pub open spec fn theme_extension() -> Seq<char> {
    "attheme"@
}

/// The fixed allow-list of raster-image container extensions.
pub open spec fn is_image_extension(e: Seq<char>) -> bool {
    ||| e == "png"@
    ||| e == "jpg"@
    ||| e == "jpeg"@
    ||| e == "bmp"@
    ||| e == "tiff"@
    ||| e == "webp"@
}

/// How a filename classifies: by its lower-cased final extension.
pub open spec fn spec_classify(name: Seq<char>) -> AttachmentKind {
    match extension_of(name) {
        None => AttachmentKind::Unknown,
        Some(e0) => {
            let e = to_lower(e0);
            if e == theme_extension() {
                AttachmentKind::Theme
            } else if is_image_extension(e) {
                AttachmentKind::Image
            } else {
                AttachmentKind::Unknown
            }
        }
    }
}

proof fn lemma_last_dot_at(s: Seq<char>, j: int)
    requires
        0 <= j < s.len(),
        s[j] == '.',
        forall|k: int| j < k < s.len() ==> s[k] != '.',
    ensures
        last_dot(s) == j,
    decreases s.len(),
{
    if j == s.len() - 1 {
    } else {
        assert(s.last() != '.');
        assert(s.drop_last()[j] == s[j]);
        assert(forall|k: int| j < k < s.len() - 1 ==> s.drop_last()[k] == #[trigger] s[k]);
        lemma_last_dot_at(s.drop_last(), j);
    }
}

proof fn lemma_last_dot_none(s: Seq<char>)
    requires
        forall|k: int| 0 <= k < s.len() ==> s[k] != '.',
    ensures
        last_dot(s) == -1,
    decreases s.len(),
{
    if s.len() > 0 {
        assert(forall|k: int| 0 <= k < s.len() - 1 ==> s.drop_last()[k] == #[trigger] s[k]);
        lemma_last_dot_none(s.drop_last());
    }
}

/// The characters of a string, in order.
pub fn chars_vec(s: &str) -> (v: Vec<char>)
    ensures
        v@ == s@,
{
    let n = s.unicode_len();
    let mut v: Vec<char> = Vec::new();
    let mut i: usize = 0;
    while i < n
        invariant
            0 <= i <= n,
            n == s@.len(),
            v@ == s@.take(i as int),
        decreases n - i,
    {
        let c = s.get_char(i);
        v.push(c);
        proof {
            assert(v@ =~= s@.take(i + 1));
        }
        i = i + 1;
    }
    proof {
        assert(s@.take(n as int) =~= s@);
    }
    v
}

fn chars_eq(a: &Vec<char>, b: &Vec<char>) -> (r: bool)
    ensures
        r == (a@ == b@),
{
    if a.len() != b.len() {
        proof {
            assert(a@.len() != b@.len());
        }
        return false;
    }
    let n = a.len();
    let mut i: usize = 0;
    while i < n
        invariant
            0 <= i <= n,
            n == a@.len() == b@.len(),
            forall|k: int| 0 <= k < i ==> a@[k] == b@[k],
        decreases n - i,
    {
        if a[i] != b[i] {
            return false;
        }
        i = i + 1;
    }
    proof {
        assert(a@ =~= b@);
    }
    true
}

/// Classify a filename by its final extension: `attheme` is a theme; the
/// raster allow-list is an image; anything else — or no extension at all —
/// is unknown. Case-insensitive, total on every filename.
#[verifier::loop_isolation(false)]
pub fn classify(file_name: &str) -> (k: AttachmentKind)
    ensures
        k == spec_classify(file_name@),
{
    let v = chars_vec(file_name);
    let n = v.len();
    // Find the last dot.
    let mut idx: usize = n;
    let mut dot: usize = 0;
    let mut found = false;
    while idx > 0 && !found
        invariant
            0 <= idx <= n,
            n == v@.len(),
            v@ == file_name@,
            !found ==> forall|k: int| idx <= k < n ==> v@[k] != '.',
            found ==> idx < n && v@[idx as int] == '.' && (forall|k: int|
                idx < k < n ==> v@[k] != '.') && dot == idx,
        decreases idx + (if found { 0int } else { 1int }),
    {
        if v[idx - 1] == '.' {
            found = true;
            dot = idx - 1;
            idx = idx - 1;
        } else {
            idx = idx - 1;
        }
    }
    if !found {
        proof {
            lemma_last_dot_none(file_name@);
        }
        return AttachmentKind::Unknown;
    }
    proof {
        lemma_last_dot_at(file_name@, dot as int);
    }
    // Lower-case the extension.
    let mut ext: Vec<char> = Vec::new();
    let mut t: usize = dot + 1;
    while t < n
        invariant
            dot + 1 <= t <= n,
            ext@ == to_lower(v@.subrange(dot + 1, t as int)),
        decreases n - t,
    {
        let c = v[t];
        let lc = if 'A' <= c && c <= 'Z' {
            ((c as u8) + 32) as char
        } else {
            c
        };
        ext.push(lc);
        proof {
            assert(lc == lower_char(c));
            assert(v@.subrange(dot + 1, t + 1).drop_last() =~= v@.subrange(dot + 1, t as int));
            assert(ext@ =~= to_lower(v@.subrange(dot + 1, t + 1)));
        }
        t = t + 1;
    }
    let ghost e = to_lower(file_name@.subrange(dot + 1, n as int));
    proof {
        assert(ext@ == e);
    }
    // Match against the known extensions.
    let theme_pat = chars_vec("attheme");
    if chars_eq(&ext, &theme_pat) {
        return AttachmentKind::Theme;
    }
    let png = chars_vec("png");
    let jpg = chars_vec("jpg");
    let jpeg = chars_vec("jpeg");
    let bmp = chars_vec("bmp");
    let tiff = chars_vec("tiff");
    let webp = chars_vec("webp");
    if chars_eq(&ext, &png) || chars_eq(&ext, &jpg) || chars_eq(&ext, &jpeg) || chars_eq(
        &ext,
        &bmp,
    ) || chars_eq(&ext, &tiff) || chars_eq(&ext, &webp) {
        return AttachmentKind::Image;
    }
    AttachmentKind::Unknown
}

} // verus!
