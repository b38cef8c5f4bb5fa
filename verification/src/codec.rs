//! The theme document codec: bytes to document and back.
//!
//! The format is line-oriented. The declaration region is a sequence of
//! `key=value` lines, each terminated by a single newline byte; keys and
//! values are ASCII, keys are non-empty and contain no `=`. The value grammar
//! is given in [`crate::value`]. A line consisting of exactly `WPS` ends the
//! declaration region: every byte after that line's newline is the wallpaper
//! blob, copied opaquely to the end of input. A document without a wallpaper
//! simply ends after its last declaration.
//!
//! Parsing is strict: malformed input is rejected with a [`FormatError`]
//! naming the offending region, never silently repaired. Parsing auto-detects
//! the color signature from the first color it reads; serialization renders
//! all colors under the signature the caller selects.
//!
//! The grammar is this crate's own and is deliberately stricter than what
//! some other theme tooling writes: such files may bracket the blob between
//! a `WPS` and a closing `WPE` line, spell hexadecimal colors `#aarrggbb`,
//! and silently drop declarations they cannot read. Files in those shapes
//! are not guaranteed to parse here; what this module serializes, it parses
//! back exactly.

use vstd::prelude::*;

use crate::document::{upsert, wf_doc, wf_vars, DocumentModel, ThemeDocument};
use crate::value::{
    bytes_of_chars, chars_of_bytes, classify_chars, hex_color_form, render_value,
    rendered_signature, signed_color_form, valid_key, valid_key_char, wf_value,
    ColorSignature, Value, ValueModel,
};

verus! {

/// Why a byte stream was rejected.
#[derive(Clone, Copy, PartialEq, Eq, Structural, Debug)]
pub enum FormatErrorKind {
    /// A declaration line is not terminated by a newline.
    UnterminatedLine,
    /// A declaration line holds no `=`.
    MissingSeparator,
    /// A declaration line starts with `=`.
    EmptyKey,
    /// A declaration line holds a byte outside the ASCII range.
    NonAscii,
    /// The wallpaper marker is followed by no bytes at all.
    EmptyWallpaper,
}

/// A parse failure; `offset` is the position of the line where it was found.
#[derive(Clone, Copy, PartialEq, Eq, Structural, Debug)]
pub struct FormatError {
    pub offset: usize,
    pub kind: FormatErrorKind,
}

/// The position of the first `x` at or after `i`, or the length if there is
/// none.
pub open spec fn scan_to(b: Seq<u8>, x: u8, i: int) -> int
    decreases b.len() - i,
{
    if i < 0 || i >= b.len() {
        b.len() as int
    } else if b[i] == x {
        i
    } else {
        scan_to(b, x, i + 1)
    }
}

pub proof fn lemma_scan_to(b: Seq<u8>, x: u8, i: int)
    requires
        0 <= i <= b.len(),
    ensures
        i <= scan_to(b, x, i) <= b.len(),
        scan_to(b, x, i) < b.len() ==> b[scan_to(b, x, i)] == x,
        forall|k: int| i <= k < scan_to(b, x, i) ==> b[k] != x,
    decreases b.len() - i,
{
    if i < b.len() && b[i] != x {
        lemma_scan_to(b, x, i + 1);
    }
}

/// The line that starts the wallpaper blob.
pub open spec fn marker_chars() -> Seq<char> {
    seq!['W', 'P', 'S']
}

pub open spec fn marker_line_bytes() -> Seq<u8> {
    seq![87u8, 80u8, 83u8, 10u8]
}

// ---------------------------------------------------------------------------
// Serialization
// ---------------------------------------------------------------------------

/// One declaration line: key, `=`, the rendered value, a newline.
pub open spec fn render_line(k: Seq<char>, v: ValueModel, signature: ColorSignature) -> Seq<u8> {
    bytes_of_chars(k) + seq![61u8] + bytes_of_chars(render_value(v, signature)) + seq![10u8]
}

pub open spec fn render_vars(
    vars: Seq<(Seq<char>, ValueModel)>,
    signature: ColorSignature,
) -> Seq<u8>
    decreases vars.len(),
{
    if vars.len() == 0 {
        Seq::<u8>::empty()
    } else {
        render_line(vars[0].0, vars[0].1, signature) + render_vars(vars.drop_first(), signature)
    }
}

/// The byte stream for a document: all declarations in table order, then the
/// marker line and the blob if a wallpaper is present.
pub open spec fn serialize_model(d: DocumentModel, signature: ColorSignature) -> Seq<u8> {
    render_vars(d.variables, signature) + match d.wallpaper {
        Some(w) => marker_line_bytes() + w,
        None => Seq::<u8>::empty(),
    }
}

pub proof fn lemma_render_vars_snoc(
    vars: Seq<(Seq<char>, ValueModel)>,
    kv: (Seq<char>, ValueModel),
    signature: ColorSignature,
)
    ensures
        render_vars(vars.push(kv), signature) == render_vars(vars, signature) + render_line(
            kv.0,
            kv.1,
            signature,
        ),
    decreases vars.len(),
{
    let line = render_line(kv.0, kv.1, signature);
    if vars.len() == 0 {
        assert(vars.push(kv)[0] == kv);
        assert(vars.push(kv).drop_first() =~= Seq::<(Seq<char>, ValueModel)>::empty());
        assert(render_vars(Seq::<(Seq<char>, ValueModel)>::empty(), signature)
            == Seq::<u8>::empty());
        assert(render_vars(vars.push(kv), signature) == line + Seq::<u8>::empty());
        assert(render_vars(vars.push(kv), signature) =~= render_vars(vars, signature) + line);
    } else {
        assert(vars.push(kv)[0] == vars[0]);
        assert(vars.push(kv).drop_first() =~= vars.drop_first().push(kv));
        lemma_render_vars_snoc(vars.drop_first(), kv, signature);
        assert(render_vars(vars.push(kv), signature) =~= render_vars(vars, signature) + line);
    }
}

/// Serialize a document: all declarations in table order under the selected
/// signature, then the wallpaper trailer verbatim if present. Deterministic:
/// the output is a function of the document and the signature alone.
#[verifier::loop_isolation(false)]
pub fn serialize(doc: &ThemeDocument, signature: ColorSignature) -> (out: Vec<u8>)
    requires
        wf_doc(doc@),
    ensures
        out@ == serialize_model(doc@, signature),
{
    let ghost vars = doc@.variables;
    let mut out: Vec<u8> = Vec::new();
    let n = doc.len();
    let mut i: usize = 0;
    proof {
        assert(vars.take(0) =~= Seq::<(Seq<char>, ValueModel)>::empty());
        assert(out@ =~= render_vars(vars.take(0), signature));
    }
    while i < n
        invariant
            0 <= i <= n,
            out@ == render_vars(vars.take(i as int), signature),
        decreases n - i,
    {
        let (k, v) = doc.entry_at(i);
        let ghost base = out@;
        let kst = k.as_str();
        proof {
            assert(valid_key(vars[i as int].0));
            assert forall|j: int| 0 <= j < kst@.len() implies '\0' <= #[trigger] kst@[j]
                <= '\u{7f}' by {
                assert(valid_key_char(kst@[j]));
            }
            assert(vstd::string::is_ascii(kst));
        }
        let mut kb = kst.as_bytes_vec();
        proof {
            broadcast use vstd::string::is_ascii_spec_bytes;

            assert(kb@ =~= bytes_of_chars(vars[i as int].0));
        }
        out.append(&mut kb);
        out.push(61);
        crate::value::push_value(&mut out, v, signature);
        out.push(10);
        proof {
            let kv = vars[i as int];
            assert(out@ =~= base + render_line(kv.0, kv.1, signature));
            assert(vars.take(i as int).push(kv) =~= vars.take(i + 1));
            lemma_render_vars_snoc(vars.take(i as int), kv, signature);
        }
        i = i + 1;
    }
    proof {
        assert(vars.take(n as int) =~= vars);
    }
    match doc.wallpaper() {
        Some(w) => {
            let ghost base = out@;
            out.push(87);
            out.push(80);
            out.push(83);
            out.push(10);
            let mut j: usize = 0;
            let wn = w.len();
            while j < wn
                invariant
                    0 <= j <= wn,
                    wn == w@.len(),
                    out@ == base + marker_line_bytes() + w@.take(j as int),
                decreases wn - j,
            {
                out.push(w[j]);
                proof {
                    assert(w@.take(j + 1) =~= w@.take(j as int).push(w@[j as int]));
                    assert(out@ =~= base + marker_line_bytes() + w@.take(j + 1));
                }
                j = j + 1;
            }
            proof {
                assert(w@.take(wn as int) =~= w@);
                assert(out@ =~= serialize_model(doc@, signature));
            }
            out
        }
        None => {
            proof {
                assert(out@ =~= serialize_model(doc@, signature));
            }
            out
        }
    }
}


// ---------------------------------------------------------------------------
// Parsing
// ---------------------------------------------------------------------------

/// The first color read decides the detected signature.
pub open spec fn join_sig(a: Option<ColorSignature>, b: Option<ColorSignature>) -> Option<
    ColorSignature,
> {
    if a is Some {
        a
    } else {
        b
    }
}

/// A document without colors defaults to the hexadecimal signature.
pub open spec fn default_sig(a: Option<ColorSignature>) -> ColorSignature {
    match a {
        Some(s) => s,
        None => ColorSignature::Hex,
    }
}

pub open spec fn region_ascii(b: Seq<u8>, i: int, j: int) -> bool {
    forall|k: int| i <= k < j ==> #[trigger] b[k] < 128
}

/// Reads one declaration line `b[i..j]` (newline excluded): the key before
/// the first `=`, the classified value after it, and the color signature the
/// value exhibits.
pub open spec fn parse_line(b: Seq<u8>, i: int, j: int) -> Result<
    (Seq<char>, ValueModel, Option<ColorSignature>),
    FormatError,
> {
    if !region_ascii(b, i, j) {
        Err(FormatError { offset: i as usize, kind: FormatErrorKind::NonAscii })
    } else {
        let e = scan_to(b, 61, i);
        if e >= j {
            Err(FormatError { offset: i as usize, kind: FormatErrorKind::MissingSeparator })
        } else if e == i {
            Err(FormatError { offset: i as usize, kind: FormatErrorKind::EmptyKey })
        } else {
            let k = chars_of_bytes(b.subrange(i, e));
            let val = chars_of_bytes(b.subrange(e + 1, j));
            Ok((k, classify_chars(val), rendered_signature(val)))
        }
    }
}

/// Reads declarations from position `i` on, accumulating the table read so
/// far; a line of exactly `WPS` ends the declarations, and the rest of the
/// input is the wallpaper.
pub open spec fn parse_from(
    b: Seq<u8>,
    i: int,
    vars: Seq<(Seq<char>, ValueModel)>,
    sig: Option<ColorSignature>,
) -> Result<(DocumentModel, ColorSignature), FormatError>
    decreases b.len() - i
        when 0 <= i <= b.len()
        via parse_from_dec
{
    if i >= b.len() {
        Ok((DocumentModel { variables: vars, wallpaper: None }, default_sig(sig)))
    } else {
        let j = scan_to(b, 10, i);
        if j >= b.len() {
            Err(FormatError { offset: i as usize, kind: FormatErrorKind::UnterminatedLine })
        } else if chars_of_bytes(b.subrange(i, j)) == marker_chars() {
            if j + 1 < b.len() {
                Ok(
                    (
                        DocumentModel {
                            variables: vars,
                            wallpaper: Some(b.subrange(j + 1, b.len() as int)),
                        },
                        default_sig(sig),
                    ),
                )
            } else {
                Err(FormatError { offset: i as usize, kind: FormatErrorKind::EmptyWallpaper })
            }
        } else {
            match parse_line(b, i, j) {
                Err(e) => Err(e),
                Ok((k, v, s2)) => parse_from(b, j + 1, upsert(vars, k, v), join_sig(sig, s2)),
            }
        }
    }
}

#[via_fn]
proof fn parse_from_dec(
    b: Seq<u8>,
    i: int,
    vars: Seq<(Seq<char>, ValueModel)>,
    sig: Option<ColorSignature>,
) {
    if 0 <= i < b.len() {
        lemma_scan_to(b, 10, i);
    }
}

/// What a byte stream denotes: a document and the detected color signature,
/// or the first error.
pub open spec fn parse_model(b: Seq<u8>) -> Result<(DocumentModel, ColorSignature), FormatError> {
    parse_from(b, 0, Seq::<(Seq<char>, ValueModel)>::empty(), None)
}

/// Parse a byte stream into a document plus the color signature detected on
/// the input; malformed input is rejected with the error `parse_model` gives.
#[verifier::loop_isolation(false)]
pub fn parse(bytes: &Vec<u8>) -> (r: Result<(ThemeDocument, ColorSignature), FormatError>)
    ensures
        r is Ok <==> parse_model(bytes@) is Ok,
        r matches Ok(q) ==> parse_model(bytes@) matches Ok(p) && q.0@ == p.0 && q.1 == p.1
            && wf_doc(q.0@),
        r matches Err(e) ==> parse_model(bytes@) matches Err(e2) && e == e2,
{
    let ghost b = bytes@;
    let n = bytes.len();
    let mut doc = ThemeDocument::new();
    let mut sig: Option<ColorSignature> = None;
    let mut i: usize = 0;
    proof {
        assert(parse_model(b) == parse_from(b, 0, doc@.variables, sig));
    }
    while i < n
        invariant
            0 <= i <= n,
            wf_doc(doc@),
            doc@.wallpaper is None,
            parse_model(b) == parse_from(b, i as int, doc@.variables, sig),
        decreases n - i,
    {
        let ghost vars0 = doc@.variables;
        // Find the end of the current line.
        let mut j: usize = i;
        while j < n && bytes[j] != 10
            invariant
                i <= j <= n,
                forall|k: int| i <= k < j ==> b[k] != 10,
            decreases n - j,
        {
            j = j + 1;
        }
        proof {
            lemma_scan_to(b, 10, i as int);
            let s0 = scan_to(b, 10, i as int);
            if s0 < j {
                assert(b[s0] == 10);
            }
            if s0 > j && (j as int) < b.len() {
                assert(b[j as int] != 10);
            }
            assert(s0 == j as int);
        }
        if j == n {
            return Err(FormatError { offset: i, kind: FormatErrorKind::UnterminatedLine });
        }
        // A line of exactly `WPS` starts the wallpaper blob.
        let is_marker = j - i == 3 && bytes[i] == 87 && bytes[i + 1] == 80 && bytes[i + 2] == 83;
        proof {
            let line = chars_of_bytes(b.subrange(i as int, j as int));
            if is_marker {
                assert(line =~= marker_chars());
            } else if line == marker_chars() {
                assert(line.len() == 3);
                assert(line[0] == 'W' && line[1] == 'P' && line[2] == 'S');
                crate::value::lemma_ascii_cast_inj(b[i as int], 87);
                crate::value::lemma_ascii_cast_inj(b[i + 1], 80);
                crate::value::lemma_ascii_cast_inj(b[i + 2], 83);
                assert(false);
            }
        }
        if is_marker {
            if j + 1 < n {
                let mut blob: Vec<u8> = Vec::new();
                let mut t: usize = j + 1;
                while t < n
                    invariant
                        j + 1 <= t <= n,
                        blob@ == b.subrange(j + 1, t as int),
                    decreases n - t,
                {
                    blob.push(bytes[t]);
                    proof {
                        assert(blob@ =~= b.subrange(j + 1, t + 1));
                    }
                    t = t + 1;
                }
                let s = match sig {
                    Some(s) => s,
                    None => ColorSignature::Hex,
                };
                doc.set_wallpaper(blob);
                return Ok((doc, s));
            } else {
                return Err(FormatError { offset: i, kind: FormatErrorKind::EmptyWallpaper });
            }
        }
        // The line must be ASCII.
        let mut a: usize = i;
        while a < j && bytes[a] < 128
            invariant
                i <= a <= j,
                forall|k: int| i <= k < a ==> #[trigger] b[k] < 128,
            decreases j - a,
        {
            a = a + 1;
        }
        if a < j {
            proof {
                assert(b[a as int] >= 128);
                assert(!region_ascii(b, i as int, j as int));
            }
            return Err(FormatError { offset: i, kind: FormatErrorKind::NonAscii });
        }
        proof {
            assert(region_ascii(b, i as int, j as int));
        }
        // Split the line at the first `=`.
        let mut e: usize = i;
        while e < j && bytes[e] != 61
            invariant
                i <= e <= j,
                forall|k: int| i <= k < e ==> b[k] != 61,
            decreases j - e,
        {
            e = e + 1;
        }
        proof {
            lemma_scan_to(b, 61, i as int);
            let s0 = scan_to(b, 61, i as int);
            if e < j {
                assert(b[e as int] == 61);
                if s0 < e {
                    assert(b[s0] == 61);
                }
                if s0 > e {
                    assert(b[e as int] != 61);
                }
                assert(s0 == e as int);
            } else {
                if s0 < j {
                    assert(b[s0] == 61);
                    assert(false);
                }
            }
        }
        if e == j {
            return Err(FormatError { offset: i, kind: FormatErrorKind::MissingSeparator });
        }
        if e == i {
            return Err(FormatError { offset: i, kind: FormatErrorKind::EmptyKey });
        }
        // The key: the characters before the separator.
        let mut kvec: Vec<u8> = Vec::new();
        let mut t: usize = i;
        while t < e
            invariant
                i <= t <= e,
                kvec@ == b.subrange(i as int, t as int),
            decreases e - t,
        {
            kvec.push(bytes[t]);
            proof {
                assert(kvec@ =~= b.subrange(i as int, t + 1));
            }
            t = t + 1;
        }
        proof {
            assert(forall|k: int| 0 <= k < kvec@.len() ==> #[trigger] kvec@[k] < 128);
        }
        let key = crate::value::string_from_ascii(kvec);
        let ghost kc = chars_of_bytes(b.subrange(i as int, e as int));
        proof {
            assert(valid_key(kc)) by {
                assert forall|k: int| 0 <= k < kc.len() implies valid_key_char(
                    #[trigger] kc[k],
                ) by {
                    let byte = b.subrange(i as int, e as int)[k];
                    assert(byte == b[i + k]);
                    assert(byte < 128);
                    assert(byte != 10);
                    assert(byte != 61);
                    assert(kc[k] == byte as char);
                    assert((byte as char) as u8 == byte);
                }
            }
        }
        // The value: the classified characters after the separator.
        let value = crate::value::classify_value_bytes(bytes, e + 1, j);
        let ghost vc = chars_of_bytes(b.subrange(e + 1, j as int));
        proof {
            assert forall|k: int| 0 <= k < vc.len() implies crate::value::valid_text_char(
                #[trigger] vc[k],
            ) by {
                let byte = b.subrange(e + 1, j as int)[k];
                assert(byte == b[e + 1 + k]);
                assert(byte < 128);
                assert(byte != 10);
                assert(vc[k] == byte as char);
                assert((byte as char) as u8 == byte);
            }
            crate::value::lemma_classify_wf(vc);
        }
        // The signature this line exhibits, if its value is a color.
        let line_sig: Option<ColorSignature> = match &value {
            Value::Color(_) => {
                proof {
                    assert(signed_color_form(vc) || hex_color_form(vc));
                    assert(vc.len() > 0);
                    assert(vc[0] == b.subrange(e + 1, j as int)[0] as char);
                }
                if bytes[e + 1] == 35 {
                    proof {
                        assert(vc[0] == '#');
                        assert(!signed_color_form(vc)) by {
                            if signed_color_form(vc) {
                                if vc.len() > 0 && vc[0] == '-' {
                                } else {
                                    assert(crate::value::is_dec_digit(vc[0]));
                                }
                            }
                        }
                        assert(rendered_signature(vc) == Some(ColorSignature::Hex));
                    }
                    Some(ColorSignature::Hex)
                } else {
                    proof {
                        crate::value::lemma_ascii_cast_inj(b[e + 1], 35);
                        assert(vc[0] != '#');
                        assert(!hex_color_form(vc));
                        assert(rendered_signature(vc) == Some(ColorSignature::Signed));
                    }
                    Some(ColorSignature::Signed)
                }
            }
            _ => {
                proof {
                    assert(rendered_signature(vc) is None);
                }
                None
            }
        };
        proof {
            assert(parse_line(b, i as int, j as int) == Ok::<_, FormatError>(
                (kc, value@, line_sig),
            ));
            assert(parse_from(b, i as int, vars0, sig) == parse_from(
                b,
                j + 1,
                upsert(vars0, kc, value@),
                join_sig(sig, line_sig),
            ));
        }
        doc.set(key, value);
        if line_sig.is_some() && sig.is_none() {
            sig = line_sig;
        }
        proof {
            assert(doc@.variables == upsert(vars0, kc, value@));
        }
        i = j + 1;
    }
    let s = match sig {
        Some(s) => s,
        None => ColorSignature::Hex,
    };
    Ok((doc, s))
}

// ---------------------------------------------------------------------------
// Round trip: parse is a left inverse of serialize
// ---------------------------------------------------------------------------

/// The bytes after the declarations of a document.
pub open spec fn trailer(tail: Option<Seq<u8>>) -> Seq<u8> {
    match tail {
        Some(w) => marker_line_bytes() + w,
        None => Seq::<u8>::empty(),
    }
}

/// The byte-level shape of one rendered declaration line.
proof fn lemma_render_line_bytes(k: Seq<char>, v: ValueModel, signature: ColorSignature)
    requires
        valid_key(k),
        wf_value(v),
    ensures
        ({
            let line = render_line(k, v, signature);
            let vb = bytes_of_chars(render_value(v, signature));
            &&& line.len() == k.len() + 1 + vb.len() + 1
            &&& forall|t: int| 0 <= t < line.len() - 1 ==> (#[trigger] line[t]) < 128 && line[t]
                != 10
            &&& line[line.len() - 1] == 10
            &&& line[k.len() as int] == 61
            &&& forall|t: int| 0 <= t < k.len() ==> (#[trigger] line[t]) != 61
            &&& chars_of_bytes(line.subrange(0, k.len() as int)) == k
            &&& chars_of_bytes(line.subrange(k.len() as int + 1, line.len() - 1)) == render_value(
                v,
                signature,
            )
            &&& classify_chars(chars_of_bytes(line.subrange(k.len() as int + 1, line.len() - 1))) == v
        }),
{
    let kb = bytes_of_chars(k);
    let rv = render_value(v, signature);
    let vb = bytes_of_chars(rv);
    let line = render_line(k, v, signature);
    crate::value::lemma_classify_render(v, signature);
    assert(line =~= kb + seq![61u8] + vb + seq![10u8]);
    assert(line.len() == k.len() + 1 + vb.len() + 1);
    assert forall|t: int| 0 <= t < line.len() - 1 implies (#[trigger] line[t]) < 128 && line[t]
        != 10 by {
        if t < kb.len() {
            let c = k[t];
            assert(valid_key_char(c));
            assert(line[t] == c as u8);
            assert((c as u8) as char == c);
            if line[t] == 10 {
                assert(c == (10u8 as char));
            }
        } else if t == kb.len() {
            assert(line[t] == 61);
        } else {
            let c = rv[t - kb.len() - 1];
            assert(crate::value::valid_text_char(c));
            assert(line[t] == c as u8);
            assert((c as u8) as char == c);
            if line[t] == 10 {
                assert(c == (10u8 as char));
            }
        }
    }
    assert(line[line.len() - 1] == 10);
    assert(line[k.len() as int] == 61);
    assert forall|t: int| 0 <= t < k.len() implies (#[trigger] line[t]) != 61 by {
        let c = k[t];
        assert(valid_key_char(c));
        assert(line[t] == c as u8);
        assert((c as u8) as char == c);
        if line[t] == 61 {
            assert(c == (61u8 as char));
            assert(c == '=');
        }
    }
    assert(line.subrange(0, k.len() as int) =~= kb);
    assert forall|i: int| 0 <= i < k.len() implies crate::value::ascii_char(#[trigger] k[i]) by {
        assert(valid_key_char(k[i]));
    }
    crate::value::lemma_chars_of_bytes_of_chars(k);
    assert(line.subrange(k.len() as int + 1, line.len() - 1) =~= vb);
    crate::value::lemma_chars_of_bytes_of_chars(rv);
}

/// The signature that parsing a rendered table detects: that of the first
/// color, if the table holds one.
pub open spec fn detected_of(
    vars: Seq<(Seq<char>, ValueModel)>,
    signature: ColorSignature,
) -> Option<ColorSignature>
    decreases vars.len(),
{
    if vars.len() == 0 {
        None
    } else {
        join_sig(
            rendered_signature(render_value(vars[0].1, signature)),
            detected_of(vars.drop_first(), signature),
        )
    }
}

/// Parsing picks up exactly the remaining rendered declarations and the
/// trailer.
#[verifier::rlimit(100)]
proof fn lemma_parse_of_render(
    b: Seq<u8>,
    i: int,
    rest: Seq<(Seq<char>, ValueModel)>,
    tail: Option<Seq<u8>>,
    acc: Seq<(Seq<char>, ValueModel)>,
    sig0: Option<ColorSignature>,
    signature: ColorSignature,
)
    requires
        0 <= i <= b.len(),
        b.subrange(i, b.len() as int) == render_vars(rest, signature) + trailer(tail),
        wf_vars(acc + rest),
        tail matches Some(w) ==> w.len() > 0,
    ensures
        parse_from(b, i, acc, sig0) matches Ok(p) && p.0.variables == acc + rest
            && p.0.wallpaper == tail && p.1 == default_sig(
            join_sig(sig0, detected_of(rest, signature)),
        ),
    decreases rest.len(),
{
    let m = b.len() as int;
    let suffix = b.subrange(i, m);
    if rest.len() == 0 {
        assert(render_vars(rest, signature) == Seq::<u8>::empty());
        assert(suffix =~= trailer(tail));
        match tail {
            None => {
                assert(suffix.len() == 0);
                assert(i >= m);
                assert(acc + rest =~= acc);
            }
            Some(w) => {
                assert(suffix.len() == 4 + w.len());
                assert(i < m);
                assert(b[i] == suffix[0] && suffix[0] == 87);
                assert(b[i + 1] == suffix[1] && suffix[1] == 80);
                assert(b[i + 2] == suffix[2] && suffix[2] == 83);
                assert(b[i + 3] == suffix[3] && suffix[3] == 10);
                lemma_scan_to(b, 10, i);
                let j = scan_to(b, 10, i);
                assert(j == i + 3) by {
                    if j < i + 3 {
                        assert(b[j] == 10);
                    }
                    if j > i + 3 {
                        assert(b[i + 3] != 10);
                    }
                }
                assert(chars_of_bytes(b.subrange(i, j)) =~= marker_chars()) by {
                    assert(b.subrange(i, j)[0] == 87);
                    assert(b.subrange(i, j)[1] == 80);
                    assert(b.subrange(i, j)[2] == 83);
                }
                assert(j + 1 < m);
                assert(b.subrange(j + 1, m) =~= w) by {
                    assert forall|t: int| 0 <= t < w.len() implies b.subrange(j + 1, m)[t]
                        == w[t] by {
                        assert(b.subrange(j + 1, m)[t] == b[i + 4 + t]);
                        assert(b[i + 4 + t] == suffix[4 + t]);
                        assert(suffix[4 + t] == (marker_line_bytes() + w)[4 + t]);
                    }
                }
                assert(acc + rest =~= acc);
            }
        }
    } else {
        let kv = rest[0];
        let k = kv.0;
        let v = kv.1;
        assert((acc + rest)[acc.len() as int] == kv);
        assert(valid_key(k) && wf_value(v));
        lemma_render_line_bytes(k, v, signature);
        let line = render_line(k, v, signature);
        let vb = bytes_of_chars(render_value(v, signature));
        let rest2 = rest.drop_first();
        assert(suffix =~= line + (render_vars(rest2, signature) + trailer(tail)));
        let ll = line.len() as int;
        assert(ll >= 3);
        assert(i + ll <= m);
        assert forall|t: int| 0 <= t < ll implies b[i + t] == #[trigger] line[t] by {
            assert(b[i + t] == suffix[t]);
            assert(suffix[t] == (line + (render_vars(rest2, signature) + trailer(tail)))[t]);
        }
        // The line's newline is the first one.
        lemma_scan_to(b, 10, i);
        let j = scan_to(b, 10, i);
        assert(b[i + ll - 1] == line[ll - 1]);
        assert(b[i + ll - 1] == 10);
        assert(j == i + ll - 1) by {
            if j < i + ll - 1 {
                assert(b[j] == line[j - i]);
                assert(b[j] == 10);
                assert(line[j - i] != 10);
            }
            if j > i + ll - 1 {
                assert(b[i + ll - 1] != 10);
            }
        }
        assert(j < m);
        // The line is not the wallpaper marker: it holds a `=`.
        assert(chars_of_bytes(b.subrange(i, j)) != marker_chars()) by {
            let lc = chars_of_bytes(b.subrange(i, j));
            assert(lc.len() == ll - 1);
            if lc == marker_chars() {
                assert(ll - 1 == 3);
                let e0 = k.len() as int;
                assert(1 <= e0 <= 2);
                assert(b.subrange(i, j)[e0] == line[e0]);
                assert(lc[e0] == (61u8 as char));
                assert(lc[e0] == '=');
                assert(marker_chars()[1] == 'P' && marker_chars()[2] == 'S');
                assert(false);
            }
        }
        // The line parses back to its key and value.
        assert(region_ascii(b, i, j)) by {
            assert forall|t: int| i <= t < j implies #[trigger] b[t] < 128 by {
                assert(b[t] == line[t - i]);
            }
        }
        lemma_scan_to(b, 61, i);
        let e = scan_to(b, 61, i);
        assert(b[i + k.len()] == line[k.len() as int]);
        assert(e == i + k.len()) by {
            if e < i + k.len() {
                assert(b[e] == line[e - i]);
                assert(b[e] == 61);
                assert(line[e - i] != 61);
            }
            if e > i + k.len() {
                assert(b[i + k.len()] != 61);
            }
        }
        assert(i < e < j);
        assert(b.subrange(i, e) =~= line.subrange(0, k.len() as int)) by {
            assert forall|t: int| 0 <= t < k.len() implies b.subrange(i, e)[t] == line.subrange(
                0,
                k.len() as int,
            )[t] by {
                assert(b.subrange(i, e)[t] == b[i + t]);
                assert(b[i + t] == line[t]);
            }
        }
        assert(b.subrange(e + 1, j) =~= line.subrange(k.len() as int + 1, ll - 1)) by {
            assert forall|t: int| 0 <= t < vb.len() implies #[trigger] b.subrange(e + 1, j)[t]
                == line.subrange(k.len() as int + 1, ll - 1)[t] by {
                assert(b.subrange(e + 1, j)[t] == b[i + k.len() + 1 + t]);
                assert(b[i + k.len() + 1 + t] == line[k.len() + 1 + t]);
            }
        }
        assert(chars_of_bytes(b.subrange(i, e)) == k);
        assert(classify_chars(chars_of_bytes(b.subrange(e + 1, j))) == v);
        let s2 = rendered_signature(chars_of_bytes(b.subrange(e + 1, j)));
        assert(parse_line(b, i, j) == Ok::<_, FormatError>((k, v, s2)));
        assert(s2 == rendered_signature(render_value(v, signature)));
        assert(join_sig(join_sig(sig0, s2), detected_of(rest2, signature)) == join_sig(
            sig0,
            detected_of(rest, signature),
        ));
        // The key is new, so the accumulator grows at the end.
        assert(!crate::document::has_key(acc, k)) by {
            if crate::document::has_key(acc, k) {
                let idx = choose|idx: int|
                    0 <= idx < acc.len() && #[trigger] acc[idx].0 == k;
                assert((acc + rest)[idx] == acc[idx]);
                assert((acc + rest)[idx].0 == (acc + rest)[acc.len() as int].0);
            }
        }
        crate::document::lemma_upsert_absent(acc, k, v);
        assert(upsert(acc, k, v) == acc.push(kv));
        // The rest of the input is the remaining declarations and trailer.
        assert(b.subrange(j + 1, m) =~= render_vars(rest2, signature) + trailer(tail)) by {
            let after = render_vars(rest2, signature) + trailer(tail);
            assert forall|t: int| 0 <= t < after.len() implies b.subrange(j + 1, m)[t]
                == after[t] by {
                assert(b.subrange(j + 1, m)[t] == b[i + ll + t]);
                assert(b[i + ll + t] == suffix[ll + t]);
                assert(suffix[ll + t] == (line + after)[ll + t]);
            }
        }
        assert(acc.push(kv) + rest2 =~= acc + rest);
        lemma_parse_of_render(b, j + 1, rest2, tail, acc.push(kv), join_sig(sig0, s2), signature);
        assert(parse_from(b, i, acc, sig0) == parse_from(
            b,
            j + 1,
            upsert(acc, k, v),
            join_sig(sig0, s2),
        ));
    }
}

/// Round trip: parsing the serialization of a well-formed document, under
/// either color signature, yields a structurally equal document — the same
/// variable table and the same wallpaper.
pub proof fn lemma_round_trip(d: DocumentModel, signature: ColorSignature)
    requires
        wf_doc(d),
    ensures
        parse_model(serialize_model(d, signature)) matches Ok(p) && p.0.variables == d.variables
            && p.0.wallpaper == d.wallpaper,
{
    let b = serialize_model(d, signature);
    let acc = Seq::<(Seq<char>, ValueModel)>::empty();
    assert(b.subrange(0, b.len() as int) =~= b);
    assert(b =~= render_vars(d.variables, signature) + trailer(d.wallpaper));
    assert(acc + d.variables =~= d.variables);
    lemma_parse_of_render(b, 0, d.variables, d.wallpaper, acc, None, signature);
}

/// A table without colors renders the same under either signature.
proof fn lemma_render_vars_no_colors(
    vars: Seq<(Seq<char>, ValueModel)>,
    a: ColorSignature,
    c: ColorSignature,
)
    requires
        forall|i: int| 0 <= i < vars.len() ==> !((#[trigger] vars[i].1) is Color),
    ensures
        render_vars(vars, a) == render_vars(vars, c),
    decreases vars.len(),
{
    if vars.len() > 0 {
        assert(!(vars[0].1 is Color));
        assert(render_value(vars[0].1, a) == render_value(vars[0].1, c));
        assert(forall|i: int|
            0 <= i < vars.drop_first().len() ==> (#[trigger] vars.drop_first()[i])
                == vars[i + 1]);
        lemma_render_vars_no_colors(vars.drop_first(), a, c);
    }
}

/// What parsing a rendered table detects: the rendering signature if a color
/// is present, nothing otherwise.
proof fn lemma_detected_of(vars: Seq<(Seq<char>, ValueModel)>, signature: ColorSignature)
    requires
        wf_vars(vars),
    ensures
        (exists|i: int| 0 <= i < vars.len() && (#[trigger] vars[i].1) is Color)
            ==> detected_of(vars, signature) == Some(signature),
        !(exists|i: int| 0 <= i < vars.len() && (#[trigger] vars[i].1) is Color)
            ==> detected_of(vars, signature) is None,
    decreases vars.len(),
{
    if vars.len() > 0 {
        assert(wf_value(vars[0].1));
        crate::value::lemma_classify_render(vars[0].1, signature);
        assert(wf_vars(vars.drop_first())) by {
            assert(forall|i: int|
                0 <= i < vars.drop_first().len() ==> (#[trigger] vars.drop_first()[i])
                    == vars[i + 1]);
        }
        lemma_detected_of(vars.drop_first(), signature);
        if vars[0].1 is Color {
        } else {
            if exists|i: int| 0 <= i < vars.len() && (#[trigger] vars[i].1) is Color {
                let i = choose|i: int| 0 <= i < vars.len() && (#[trigger] vars[i].1) is Color;
                assert(i >= 1);
                assert(vars.drop_first()[i - 1] == vars[i]);
            }
            if exists|i: int|
                0 <= i < vars.drop_first().len() && (#[trigger] vars.drop_first()[i].1)
                    is Color {
                let i = choose|i: int|
                    0 <= i < vars.drop_first().len() && (#[trigger] vars.drop_first()[i].1)
                        is Color;
                assert(vars[i + 1] == vars.drop_first()[i]);
            }
        }
    }
}

/// Serialization fidelity: re-serializing a freshly parsed, unmodified
/// document under the signature detected on the input reproduces the input
/// byte-identically, for any input that is itself the serialization of a
/// well-formed document.
pub proof fn lemma_reserialize_identity(d: DocumentModel, signature: ColorSignature)
    requires
        wf_doc(d),
    ensures
        parse_model(serialize_model(d, signature)) matches Ok(p) && serialize_model(p.0, p.1)
            == serialize_model(d, signature),
{
    let b = serialize_model(d, signature);
    let acc = Seq::<(Seq<char>, ValueModel)>::empty();
    assert(b.subrange(0, b.len() as int) =~= b);
    assert(b =~= render_vars(d.variables, signature) + trailer(d.wallpaper));
    assert(acc + d.variables =~= d.variables);
    lemma_parse_of_render(b, 0, d.variables, d.wallpaper, acc, None, signature);
    let p = parse_model(b)->Ok_0;
    assert(p.0.variables == d.variables && p.0.wallpaper == d.wallpaper);
    assert(p.0 == d);
    lemma_detected_of(d.variables, signature);
    if exists|i: int| 0 <= i < d.variables.len() && (#[trigger] d.variables[i].1) is Color {
        assert(p.1 == signature);
    } else {
        assert(p.1 == ColorSignature::Hex);
        assert forall|i: int| 0 <= i < d.variables.len() implies !((#[trigger] d.variables[i].1)
            is Color) by {
        }
        lemma_render_vars_no_colors(d.variables, ColorSignature::Hex, signature);
    }
}
} // verus!
