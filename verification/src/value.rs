//! Values of a theme document and the textual grammar of each kind.
//!
//! A value is rendered on one declaration line, after the `=` separator:
//! - `Boolean` values are the literals `true` and `false`.
//! - `Color` values hold a 32-bit ARGB integer. They are rendered either as
//!   the decimal two's-complement of that integer (`Signed`), or as `#`
//!   followed by eight lower-case hexadecimal digits in `rrggbbaa` order
//!   (`Hex`). Parsing accepts both spellings regardless of the signature,
//!   with upper-case hexadecimal digits tolerated.
//! - `Text` values are any other line of ASCII text without a newline.

use vstd::prelude::*;

verus! {

/// How `Color` values are rendered on serialization: decimal two's-complement
/// of the 32-bit ARGB integer, or `#rrggbbaa` hexadecimal text.
#[derive(Clone, Copy, PartialEq, Eq, Structural, Debug)]
pub enum ColorSignature {
    Signed,
    Hex,
}

/// One value of the variable table.
#[derive(Clone, PartialEq, Debug)]
pub enum Value {
    Text(String),
    /// A 32-bit ARGB color: alpha in the top byte, then red, green, blue.
    Color(u32),
    Boolean(bool),
}

/// The mathematical model of a `Value`: text is a sequence of characters.
pub enum ValueModel {
    Text(Seq<char>),
    Color(u32),
    Boolean(bool),
}

impl View for Value {
    type V = ValueModel;

    open spec fn view(&self) -> ValueModel {
        match self {
            Value::Text(s) => ValueModel::Text(s@),
            Value::Color(c) => ValueModel::Color(*c),
            Value::Boolean(b) => ValueModel::Boolean(*b),
        }
    }
}

pub open spec fn ascii_char(c: char) -> bool {
    '\0' <= c && c <= '\u{7f}'
}

/// Characters allowed in a text value: ASCII, no newline.
pub open spec fn valid_text_char(c: char) -> bool {
    ascii_char(c) && c != '\n'
}

/// Characters allowed in a key: additionally no `=`, which separates the key
/// from the value on a declaration line.
pub open spec fn valid_key_char(c: char) -> bool {
    valid_text_char(c) && c != '='
}

pub open spec fn valid_key(k: Seq<char>) -> bool {
    k.len() > 0 && forall|i: int| 0 <= i < k.len() ==> valid_key_char(#[trigger] k[i])
}

/// ASCII characters map one-for-one to bytes.
pub open spec fn bytes_of_chars(s: Seq<char>) -> Seq<u8> {
    s.map(|i: int, c: char| c as u8)
}

pub open spec fn chars_of_bytes(b: Seq<u8>) -> Seq<char> {
    b.map(|i: int, c: u8| c as char)
}

pub proof fn lemma_chars_of_bytes_of_chars(s: Seq<char>)
    requires
        forall|i: int| 0 <= i < s.len() ==> ascii_char(#[trigger] s[i]),
    ensures
        chars_of_bytes(bytes_of_chars(s)) == s,
{
    assert forall|i: int| 0 <= i < s.len() implies chars_of_bytes(bytes_of_chars(s))[i] == s[i] by {
        let c = s[i];
        assert(ascii_char(c));
        assert((c as u8) as char == c);
        assert(bytes_of_chars(s)[i] == c as u8);
    }
    assert(chars_of_bytes(bytes_of_chars(s)) =~= s);
}

pub proof fn lemma_bytes_of_chars_push(s: Seq<char>, c: char)
    ensures
        bytes_of_chars(s.push(c)) == bytes_of_chars(s).push(c as u8),
{
    assert(bytes_of_chars(s.push(c)) =~= bytes_of_chars(s).push(c as u8));
}

pub proof fn lemma_bytes_of_chars_add(a: Seq<char>, b: Seq<char>)
    ensures
        bytes_of_chars(a + b) == bytes_of_chars(a) + bytes_of_chars(b),
{
    assert(bytes_of_chars(a + b) =~= bytes_of_chars(a) + bytes_of_chars(b));
}

// ---------------------------------------------------------------------------
// Decimal digits
// ---------------------------------------------------------------------------

pub open spec fn is_dec_digit(c: char) -> bool {
    '0' <= c && c <= '9'
}

pub open spec fn dec_digit_val(c: char) -> int {
    c as int - 48
}

pub open spec fn all_dec_digits(s: Seq<char>) -> bool {
    forall|i: int| 0 <= i < s.len() ==> is_dec_digit(#[trigger] s[i])
}

/// The number denoted by a sequence of decimal digits, most significant first.
pub open spec fn dec_value(s: Seq<char>) -> int
    decreases s.len(),
{
    if s.len() == 0 {
        0
    } else {
        dec_value(s.drop_last()) * 10 + dec_digit_val(s.last())
    }
}

pub open spec fn dec_digit_char(d: int) -> char {
    ((d + 48) as u8) as char
}

/// The canonical decimal rendering of a non-negative number, no leading zeros.
pub open spec fn dec_digits(n: int) -> Seq<char>
    recommends
        n >= 0,
    decreases n,
{
    if n < 10 {
        seq![dec_digit_char(n)]
    } else {
        dec_digits(n / 10).push(dec_digit_char(n % 10))
    }
}

pub open spec fn pow10(k: nat) -> int
    decreases k,
{
    if k == 0 {
        1
    } else {
        10 * pow10((k - 1) as nat)
    }
}

pub proof fn lemma_dec_value_bound(s: Seq<char>)
    requires
        all_dec_digits(s),
    ensures
        0 <= dec_value(s) < pow10(s.len()),
    decreases s.len(),
{
    if s.len() > 0 {
        assert(all_dec_digits(s.drop_last())) by {
            assert(forall|i: int|
                0 <= i < s.len() - 1 ==> s.drop_last()[i] == #[trigger] s[i]);
        }
        lemma_dec_value_bound(s.drop_last());
        assert(is_dec_digit(s.last()));
    }
}

pub proof fn lemma_dec_digits_ok(n: int)
    requires
        n >= 0,
    ensures
        all_dec_digits(dec_digits(n)),
        dec_value(dec_digits(n)) == n,
        dec_digits(n).len() >= 1,
    decreases n,
{
    if n < 10 {
        let s = dec_digits(n);
        assert(s == seq![dec_digit_char(n)]);
        assert(dec_digit_char(n) as int == n + 48);
        assert(is_dec_digit(s[0]));
        assert(s.drop_last() =~= Seq::<char>::empty());
        assert(dec_value(Seq::<char>::empty()) == 0);
        assert(dec_value(s) == 0 * 10 + dec_digit_val(s.last()));
    } else {
        lemma_dec_digits_ok(n / 10);
        let prefix = dec_digits(n / 10);
        let d = n % 10;
        assert(0 <= d < 10);
        assert(dec_digit_char(d) as int == d + 48);
        let s = dec_digits(n);
        assert(s == prefix.push(dec_digit_char(d)));
        assert forall|i: int| 0 <= i < s.len() implies is_dec_digit(#[trigger] s[i]) by {
            if i < prefix.len() {
                assert(s[i] == prefix[i]);
            }
        }
        assert(s.drop_last() =~= prefix);
        assert(dec_value(s) == dec_value(prefix) * 10 + dec_digit_val(s.last()));
        assert(dec_value(s) == (n / 10) * 10 + n % 10);
    }
}

pub proof fn lemma_dec_digits_len(n: int, k: nat)
    requires
        0 <= n < pow10(k),
        k >= 1,
    ensures
        dec_digits(n).len() <= k,
    decreases n,
{
    if n >= 10 {
        assert(pow10(k) == 10 * pow10((k - 1) as nat));
        lemma_dec_digits_len(n / 10, (k - 1) as nat);
    }
}

// ---------------------------------------------------------------------------
// Hexadecimal digits
// ---------------------------------------------------------------------------

pub open spec fn is_hex_digit(c: char) -> bool {
    is_dec_digit(c) || ('a' <= c && c <= 'f') || ('A' <= c && c <= 'F')
}

pub open spec fn hex_digit_val(c: char) -> int {
    if is_dec_digit(c) {
        c as int - 48
    } else if 'a' <= c && c <= 'f' {
        c as int - 87
    } else {
        c as int - 55
    }
}

/// The number denoted by hexadecimal digits, most significant first.
pub open spec fn hex_value(s: Seq<char>) -> int
    decreases s.len(),
{
    if s.len() == 0 {
        0
    } else {
        hex_value(s.drop_last()) * 16 + hex_digit_val(s.last())
    }
}

pub open spec fn hex_digit_char(d: int) -> char {
    if d < 10 {
        ((d + 48) as u8) as char
    } else {
        ((d + 87) as u8) as char
    }
}

/// The low `k` hexadecimal digits of `h`, most significant first, lower case.
pub open spec fn hex_digits(h: int, k: nat) -> Seq<char>
    recommends
        h >= 0,
    decreases k,
{
    if k == 0 {
        Seq::<char>::empty()
    } else {
        hex_digits(h / 16, (k - 1) as nat).push(hex_digit_char(h % 16))
    }
}

pub open spec fn pow16(k: nat) -> int
    decreases k,
{
    if k == 0 {
        1
    } else {
        16 * pow16((k - 1) as nat)
    }
}

pub proof fn lemma_hex_value_bound(s: Seq<char>)
    requires
        forall|i: int| 0 <= i < s.len() ==> is_hex_digit(#[trigger] s[i]),
    ensures
        0 <= hex_value(s) < pow16(s.len()),
    decreases s.len(),
{
    if s.len() > 0 {
        assert(forall|i: int|
            0 <= i < s.len() - 1 ==> s.drop_last()[i] == #[trigger] s[i]);
        lemma_hex_value_bound(s.drop_last());
        assert(is_hex_digit(s.last()));
        assert(0 <= hex_digit_val(s.last()) < 16);
    }
}

pub proof fn lemma_hex_digits_ok(h: int, k: nat)
    requires
        0 <= h < pow16(k),
    ensures
        hex_digits(h, k).len() == k,
        forall|i: int| 0 <= i < k ==> is_hex_digit(#[trigger] hex_digits(h, k)[i]),
        hex_value(hex_digits(h, k)) == h,
    decreases k,
{
    if k > 0 {
        assert(pow16(k) == 16 * pow16((k - 1) as nat));
        lemma_hex_digits_ok(h / 16, (k - 1) as nat);
        let prefix = hex_digits(h / 16, (k - 1) as nat);
        let d = h % 16;
        assert(0 <= d < 16);
        assert(is_hex_digit(hex_digit_char(d)) && hex_digit_val(hex_digit_char(d)) == d) by {
            if d < 10 {
                assert(hex_digit_char(d) as int == d + 48);
            } else {
                assert(hex_digit_char(d) as int == d + 87);
            }
        }
        let s = hex_digits(h, k);
        assert(s == prefix.push(hex_digit_char(d)));
        assert forall|i: int| 0 <= i < k implies is_hex_digit(#[trigger] s[i]) by {
            if i < prefix.len() {
                assert(s[i] == prefix[i]);
            }
        }
        assert(s.drop_last() =~= prefix);
        assert(hex_value(s) == (h / 16) * 16 + h % 16);
    }
}

// ---------------------------------------------------------------------------
// The textual forms a value can take
// ---------------------------------------------------------------------------

pub open spec fn true_chars() -> Seq<char> {
    seq!['t', 'r', 'u', 'e']
}

pub open spec fn false_chars() -> Seq<char> {
    seq!['f', 'a', 'l', 's', 'e']
}

/// An optional minus sign followed by up to ten decimal digits whose value
/// fits a 32-bit two's-complement integer.
pub open spec fn signed_color_form(s: Seq<char>) -> bool {
    if s.len() > 0 && s[0] == '-' {
        let m = s.subrange(1, s.len() as int);
        1 <= m.len() <= 10 && all_dec_digits(m) && dec_value(m) <= 0x8000_0000
    } else {
        1 <= s.len() <= 10 && all_dec_digits(s) && dec_value(s) < 0x8000_0000
    }
}

/// The ARGB integer denoted by a signed decimal form.
pub open spec fn signed_color_value(s: Seq<char>) -> u32 {
    if s.len() > 0 && s[0] == '-' {
        ((0x1_0000_0000 - dec_value(s.subrange(1, s.len() as int))) % 0x1_0000_0000) as u32
    } else {
        dec_value(s) as u32
    }
}

/// `#` followed by exactly eight hexadecimal digits, `rrggbbaa` order.
pub open spec fn hex_color_form(s: Seq<char>) -> bool {
    s.len() == 9 && s[0] == '#' && forall|i: int| 1 <= i < 9 ==> is_hex_digit(#[trigger] s[i])
}

/// Repack an `rrggbbaa` number as an ARGB integer.
pub open spec fn argb_of_rgba(h: int) -> u32 {
    ((h % 256) * 0x100_0000 + h / 256) as u32
}

/// Unpack an ARGB integer into its `rrggbbaa` rendering order.
pub open spec fn rgba_of_argb(x: u32) -> int {
    (x as int % 0x100_0000) * 256 + x as int / 0x100_0000
}

pub open spec fn hex_color_value(s: Seq<char>) -> u32 {
    argb_of_rgba(hex_value(s.subrange(1, s.len() as int)))
}

/// How a parsed value line is read back: the first matching form wins.
pub open spec fn classify_chars(s: Seq<char>) -> ValueModel {
    if s == true_chars() {
        ValueModel::Boolean(true)
    } else if s == false_chars() {
        ValueModel::Boolean(false)
    } else if signed_color_form(s) {
        ValueModel::Color(signed_color_value(s))
    } else if hex_color_form(s) {
        ValueModel::Color(hex_color_value(s))
    } else {
        ValueModel::Text(s)
    }
}

/// The color signature a value line exhibits, if it reads back as a color.
pub open spec fn rendered_signature(s: Seq<char>) -> Option<ColorSignature> {
    if s == true_chars() || s == false_chars() {
        None
    } else if signed_color_form(s) {
        Some(ColorSignature::Signed)
    } else if hex_color_form(s) {
        Some(ColorSignature::Hex)
    } else {
        None
    }
}

/// Text that no other form claims, so it reads back as text.
pub open spec fn plain_text(s: Seq<char>) -> bool {
    s != true_chars() && s != false_chars() && !signed_color_form(s) && !hex_color_form(s)
}

pub open spec fn wf_value(v: ValueModel) -> bool {
    match v {
        ValueModel::Text(s) => (forall|i: int|
            0 <= i < s.len() ==> valid_text_char(#[trigger] s[i])) && plain_text(s),
        ValueModel::Color(_) => true,
        ValueModel::Boolean(_) => true,
    }
}

// ---------------------------------------------------------------------------
// Rendering
// ---------------------------------------------------------------------------

pub open spec fn render_color(x: u32, signature: ColorSignature) -> Seq<char> {
    match signature {
        ColorSignature::Signed => if x < 0x8000_0000 {
            dec_digits(x as int)
        } else {
            seq!['-'] + dec_digits(0x1_0000_0000 - x as int)
        },
        ColorSignature::Hex => seq!['#'] + hex_digits(rgba_of_argb(x), 8),
    }
}

/// How a value is written on a declaration line.
pub open spec fn render_value(v: ValueModel, signature: ColorSignature) -> Seq<char> {
    match v {
        ValueModel::Text(s) => s,
        ValueModel::Color(x) => render_color(x, signature),
        ValueModel::Boolean(b) => if b {
            true_chars()
        } else {
            false_chars()
        },
    }
}

// ---------------------------------------------------------------------------
// Rendering reads back as the same value
// ---------------------------------------------------------------------------

pub proof fn lemma_pow10_mono(a: nat, b: nat)
    requires
        a <= b,
    ensures
        pow10(a) <= pow10(b),
        pow10(a) >= 1,
    decreases b,
{
    if b > 0 {
        if a == b {
            lemma_pow10_mono((a - 1) as nat, (b - 1) as nat);
        } else {
            lemma_pow10_mono(a, (b - 1) as nat);
        }
    }
}

pub proof fn lemma_ascii_cast_inj(a: u8, b: u8)
    ensures
        (a as char == b as char) <==> a == b,
{
    assert((a as char) as u8 == a);
    assert((b as char) as u8 == b);
}

/// Classification of a line of valid text characters yields a well-formed
/// value.
pub proof fn lemma_classify_wf(s: Seq<char>)
    requires
        forall|i: int| 0 <= i < s.len() ==> valid_text_char(#[trigger] s[i]),
    ensures
        wf_value(classify_chars(s)),
{
}

proof fn lemma_dec_digits_are_valid(n: int)
    requires
        0 <= n,
    ensures
        forall|i: int| 0 <= i < dec_digits(n).len() ==> valid_text_char(
            #[trigger] dec_digits(n)[i],
        ) && dec_digits(n)[i] != '-' && dec_digits(n)[i] != '#',
{
    lemma_dec_digits_ok(n);
    assert forall|i: int| 0 <= i < dec_digits(n).len() implies valid_text_char(
        #[trigger] dec_digits(n)[i],
    ) && dec_digits(n)[i] != '-' && dec_digits(n)[i] != '#' by {
        assert(is_dec_digit(dec_digits(n)[i]));
    }
}

/// A rendered signed color reads back as the same color.
proof fn lemma_classify_signed(x: u32)
    ensures
        classify_chars(render_color(x, ColorSignature::Signed)) == ValueModel::Color(x),
        forall|i: int| 0 <= i < render_color(x, ColorSignature::Signed).len() ==> valid_text_char(
            #[trigger] render_color(x, ColorSignature::Signed)[i],
        ),
        render_color(x, ColorSignature::Signed) != true_chars(),
        render_color(x, ColorSignature::Signed) != false_chars(),
        signed_color_form(render_color(x, ColorSignature::Signed)),
{
    reveal_with_fuel(pow10, 11);
    let s = render_color(x, ColorSignature::Signed);
    if x < 0x8000_0000 {
        let n = x as int;
        lemma_dec_digits_ok(n);
        lemma_dec_digits_are_valid(n);
        lemma_dec_digits_len(n, 10);
        assert(s == dec_digits(n));
        assert(is_dec_digit(s[0]));
        assert(s != true_chars() && s != false_chars()) by {
            if s == true_chars() {
                assert(s[0] == 't');
            }
            if s == false_chars() {
                assert(s[0] == 'f');
            }
        }
        assert(s[0] != '-');
        assert(signed_color_form(s));
        assert(signed_color_value(s) == (n as u32));
    } else {
        let m = 0x1_0000_0000 - x as int;
        assert(1 <= m <= 0x8000_0000);
        lemma_dec_digits_ok(m);
        lemma_dec_digits_are_valid(m);
        lemma_dec_digits_len(m, 10);
        assert(s == seq!['-'] + dec_digits(m));
        assert(s[0] == '-');
        let t = s.subrange(1, s.len() as int);
        assert(t =~= dec_digits(m));
        assert(signed_color_form(s));
        assert(s != true_chars() && s != false_chars()) by {
            if s == true_chars() {
                assert(s[0] == 't');
            }
            if s == false_chars() {
                assert(s[0] == 'f');
            }
        }
        assert((0x1_0000_0000 - dec_value(t)) % 0x1_0000_0000 == x as int);
        assert(signed_color_value(s) == x);
        assert forall|i: int| 0 <= i < s.len() implies valid_text_char(#[trigger] s[i]) by {
            if i >= 1 {
                assert(s[i] == dec_digits(m)[i - 1]);
            }
        }
    }
}

/// A rendered hexadecimal color reads back as the same color.
proof fn lemma_classify_hex(x: u32)
    ensures
        classify_chars(render_color(x, ColorSignature::Hex)) == ValueModel::Color(x),
        forall|i: int| 0 <= i < render_color(x, ColorSignature::Hex).len() ==> valid_text_char(
            #[trigger] render_color(x, ColorSignature::Hex)[i],
        ),
        render_color(x, ColorSignature::Hex) != true_chars(),
        render_color(x, ColorSignature::Hex) != false_chars(),
        !signed_color_form(render_color(x, ColorSignature::Hex)),
        hex_color_form(render_color(x, ColorSignature::Hex)),
{
    reveal_with_fuel(pow16, 9);
    let h = rgba_of_argb(x);
    assert(0 <= h < pow16(8)) by {
        assert(x as int % 0x100_0000 < 0x100_0000);
        assert(x as int / 0x100_0000 < 256);
        assert((x as int % 0x100_0000) * 256 <= (0x100_0000 - 1) * 256);
    }
    lemma_hex_digits_ok(h, 8);
    let digits = hex_digits(h, 8);
    let s = render_color(x, ColorSignature::Hex);
    assert(s == seq!['#'] + digits);
    assert(s.len() == 9);
    assert(s[0] == '#');
    assert forall|i: int| 1 <= i < 9 implies is_hex_digit(#[trigger] s[i]) by {
        assert(s[i] == digits[i - 1]);
    }
    assert(hex_color_form(s));
    assert(s != true_chars() && s != false_chars()) by {
        assert(s.len() == 9);
    }
    assert(!signed_color_form(s)) by {
        assert(s[0] != '-');
        assert(!is_dec_digit('#'));
    }
    let t = s.subrange(1, s.len() as int);
    assert(t =~= digits);
    assert(hex_value(t) == h);
    assert(argb_of_rgba(h) == x) by {
        let lo = x as int % 0x100_0000;
        let hi = x as int / 0x100_0000;
        assert(h == lo * 256 + hi);
        assert(h % 256 == hi && h / 256 == lo) by (nonlinear_arith)
            requires
                h == lo * 256 + hi,
                0 <= hi < 256,
                0 <= lo,
        ;
        assert(x as int == 0x100_0000 * (x as int / 0x100_0000) + x as int % 0x100_0000);
        assert((h % 256) * 0x100_0000 + h / 256 == x as int);
    }
    assert forall|i: int| 0 <= i < s.len() implies valid_text_char(#[trigger] s[i]) by {
        if i >= 1 {
            assert(is_hex_digit(s[i]));
        }
    }
}

/// Any well-formed value, rendered under either signature, reads back as
/// itself, and its rendering contains only ASCII characters other than the
/// newline.
pub proof fn lemma_classify_render(v: ValueModel, signature: ColorSignature)
    requires
        wf_value(v),
    ensures
        classify_chars(render_value(v, signature)) == v,
        forall|i: int| 0 <= i < render_value(v, signature).len() ==> valid_text_char(
            #[trigger] render_value(v, signature)[i],
        ),
        (v is Color) ==> rendered_signature(render_value(v, signature)) == Some(signature),
        !(v is Color) ==> rendered_signature(render_value(v, signature)) is None,
{
    match v {
        ValueModel::Text(_) => {
        }
        ValueModel::Color(x) => {
            match signature {
                ColorSignature::Signed => lemma_classify_signed(x),
                ColorSignature::Hex => lemma_classify_hex(x),
            }
        }
        ValueModel::Boolean(b) => {
            let s = render_value(v, signature);
            if b {
                assert(s == true_chars());
            } else {
                assert(s == false_chars());
                assert(s != true_chars()) by {
                    assert(s.len() == 5);
                }
            }
        }
    }
}

// ---------------------------------------------------------------------------
// Executable rendering
// ---------------------------------------------------------------------------

/// Relies on `alloc::string::String::from_utf8`: a sequence of ASCII bytes is
/// valid UTF-8 and decodes to the characters with the same code points.
#[verifier::external_body]
pub(crate) fn string_from_ascii(bytes: Vec<u8>) -> (r: String)
    requires
        forall|i: int| 0 <= i < bytes@.len() ==> #[trigger] bytes@[i] < 128,
    ensures
        r@ == chars_of_bytes(bytes@),
{
    String::from_utf8(bytes).unwrap_or_default()
}

fn push_dec_u64(out: &mut Vec<u8>, n: u64)
    ensures
        final(out)@ == old(out)@ + bytes_of_chars(dec_digits(n as int)),
    decreases n,
{
    if n < 10 {
        let d: u8 = 48 + (n as u8);
        out.push(d);
        proof {
            assert(dec_digit_char(n as int) as u8 == d);
            assert(bytes_of_chars(dec_digits(n as int)) =~= seq![d]);
            assert(final(out)@ =~= old(out)@ + seq![d]);
        }
    } else {
        push_dec_u64(out, n / 10);
        let d: u8 = 48 + ((n % 10) as u8);
        out.push(d);
        proof {
            let prefix = dec_digits(n as int / 10);
            assert(dec_digit_char(n as int % 10) as u8 == d);
            lemma_bytes_of_chars_push(prefix, dec_digit_char(n as int % 10));
            assert(final(out)@ =~= old(out)@ + bytes_of_chars(dec_digits(n as int)));
        }
    }
}

fn push_signed_color(out: &mut Vec<u8>, x: u32)
    ensures
        final(out)@ == old(out)@ + bytes_of_chars(render_color(x, ColorSignature::Signed)),
{
    if x < 0x8000_0000 {
        push_dec_u64(out, x as u64);
    } else {
        out.push(45);
        let m: u64 = 0x1_0000_0000u64 - (x as u64);
        push_dec_u64(out, m);
        proof {
            assert(m as int == 0x1_0000_0000 - x as int);
            assert(('-' as u8) == 45);
            lemma_bytes_of_chars_add(seq!['-'], dec_digits(m as int));
            assert(bytes_of_chars(seq!['-']) =~= seq![45u8]);
            assert(final(out)@ =~= old(out)@ + bytes_of_chars(
                render_color(x, ColorSignature::Signed),
            ));
        }
    }
}

fn push_hex_digits(out: &mut Vec<u8>, h: u64, k: usize)
    ensures
        final(out)@ == old(out)@ + bytes_of_chars(hex_digits(h as int, k as nat)),
    decreases k,
{
    if k == 0 {
        proof {
            assert(bytes_of_chars(Seq::<char>::empty()) =~= Seq::<u8>::empty());
            assert(final(out)@ =~= old(out)@ + Seq::<u8>::empty());
        }
    } else {
        push_hex_digits(out, h / 16, k - 1);
        let d: u64 = h % 16;
        let b: u8 = if d < 10 {
            48 + (d as u8)
        } else {
            87 + (d as u8)
        };
        out.push(b);
        proof {
            assert(hex_digit_char(h as int % 16) as u8 == b);
            lemma_bytes_of_chars_push(
                hex_digits(h as int / 16, (k - 1) as nat),
                hex_digit_char(h as int % 16),
            );
            assert(final(out)@ =~= old(out)@ + bytes_of_chars(hex_digits(h as int, k as nat)));
        }
    }
}

fn push_hex_color(out: &mut Vec<u8>, x: u32)
    ensures
        final(out)@ == old(out)@ + bytes_of_chars(render_color(x, ColorSignature::Hex)),
{
    out.push(35);
    let h: u64 = ((x as u64) % 0x100_0000) * 256 + (x as u64) / 0x100_0000;
    push_hex_digits(out, h, 8);
    proof {
        assert(h as int == rgba_of_argb(x));
        assert(('#' as u8) == 35);
        lemma_bytes_of_chars_add(seq!['#'], hex_digits(rgba_of_argb(x), 8));
        assert(bytes_of_chars(seq!['#']) =~= seq![35u8]);
        assert(final(out)@ =~= old(out)@ + bytes_of_chars(render_color(x, ColorSignature::Hex)));
    }
}

/// Append the rendering of `v` under `signature` to `out`.
pub(crate) fn push_value(out: &mut Vec<u8>, v: &Value, signature: ColorSignature)
    requires
        wf_value(v@),
    ensures
        final(out)@ == old(out)@ + bytes_of_chars(render_value(v@, signature)),
{
    match v {
        Value::Text(s) => {
            let st = s.as_str();
            proof {
                assert forall|i: int| 0 <= i < s@.len() implies '\0' <= #[trigger] s@[i]
                    <= '\u{7f}' by {
                    assert(valid_text_char(s@[i]));
                }
                assert(vstd::string::is_ascii(st));
            }
            let mut sb = st.as_bytes_vec();
            proof {
                broadcast use vstd::string::is_ascii_spec_bytes;

                assert(sb@ =~= bytes_of_chars(s@));
            }
            out.append(&mut sb);
        }
        Value::Color(x) => {
            match signature {
                ColorSignature::Signed => push_signed_color(out, *x),
                ColorSignature::Hex => push_hex_color(out, *x),
            }
        }
        Value::Boolean(b) => {
            if *b {
                out.push(116);
                out.push(114);
                out.push(117);
                out.push(101);
                proof {
                    assert(bytes_of_chars(true_chars()) =~= seq![116u8, 114u8, 117u8, 101u8]);
                    assert(final(out)@ =~= old(out)@ + bytes_of_chars(true_chars()));
                }
            } else {
                out.push(102);
                out.push(97);
                out.push(108);
                out.push(115);
                out.push(101);
                proof {
                    assert(bytes_of_chars(false_chars()) =~= seq![
                        102u8,
                        97u8,
                        108u8,
                        115u8,
                        101u8,
                    ]);
                    assert(final(out)@ =~= old(out)@ + bytes_of_chars(false_chars()));
                }
            }
        }
    }
}

// ---------------------------------------------------------------------------
// Executable classification
// ---------------------------------------------------------------------------

fn is_lit_true(bytes: &Vec<u8>, start: usize, end: usize) -> (r: bool)
    requires
        start <= end <= bytes@.len(),
        forall|i: int| start <= i < end ==> #[trigger] bytes@[i] < 128,
    ensures
        r == (chars_of_bytes(bytes@.subrange(start as int, end as int)) == true_chars()),
{
    let ghost s = chars_of_bytes(bytes@.subrange(start as int, end as int));
    if end - start != 4 {
        proof {
            assert(s.len() == end - start);
        }
        return false;
    }
    let r = bytes[start] == 116 && bytes[start + 1] == 114 && bytes[start + 2] == 117 && bytes[
        start + 3] == 101;
    proof {
        if r {
            assert(s =~= true_chars());
        } else if s == true_chars() {
            assert(s[0] == 't' && s[1] == 'r' && s[2] == 'u' && s[3] == 'e');
            lemma_ascii_cast_inj(bytes@[start as int], 116);
            lemma_ascii_cast_inj(bytes@[start + 1], 114);
            lemma_ascii_cast_inj(bytes@[start + 2], 117);
            lemma_ascii_cast_inj(bytes@[start + 3], 101);
            assert(false);
        }
    }
    r
}

fn is_lit_false(bytes: &Vec<u8>, start: usize, end: usize) -> (r: bool)
    requires
        start <= end <= bytes@.len(),
        forall|i: int| start <= i < end ==> #[trigger] bytes@[i] < 128,
    ensures
        r == (chars_of_bytes(bytes@.subrange(start as int, end as int)) == false_chars()),
{
    let ghost s = chars_of_bytes(bytes@.subrange(start as int, end as int));
    if end - start != 5 {
        proof {
            assert(s.len() == end - start);
        }
        return false;
    }
    let r = bytes[start] == 102 && bytes[start + 1] == 97 && bytes[start + 2] == 108 && bytes[start
        + 3] == 115 && bytes[start + 4] == 101;
    proof {
        if r {
            assert(s =~= false_chars());
        } else if s == false_chars() {
            assert(s[0] == 'f' && s[1] == 'a' && s[2] == 'l' && s[3] == 's' && s[4] == 'e');
            lemma_ascii_cast_inj(bytes@[start as int], 102);
            lemma_ascii_cast_inj(bytes@[start + 1], 97);
            lemma_ascii_cast_inj(bytes@[start + 2], 108);
            lemma_ascii_cast_inj(bytes@[start + 3], 115);
            lemma_ascii_cast_inj(bytes@[start + 4], 101);
            assert(false);
        }
    }
    r
}

/// Reads the digits `bytes[from..end]`; `None` unless they are 1 to 10
/// decimal digits.
fn fold_dec_digits(bytes: &Vec<u8>, from: usize, end: usize) -> (r: Option<u64>)
    requires
        from <= end <= bytes@.len(),
        forall|i: int| from <= i < end ==> #[trigger] bytes@[i] < 128,
    ensures
        ({
            let m = chars_of_bytes(bytes@.subrange(from as int, end as int));
            &&& r is Some <==> (1 <= m.len() <= 10 && all_dec_digits(m))
            &&& r matches Some(n) ==> n == dec_value(m)
        }),
{
    let ghost m = chars_of_bytes(bytes@.subrange(from as int, end as int));
    if end - from < 1 || end - from > 10 {
        proof {
            assert(m.len() == end - from);
        }
        return None;
    }
    let mut val: u64 = 0;
    let mut j: usize = from;
    while j < end
        invariant
            from <= j <= end,
            end <= bytes@.len(),
            1 <= end - from <= 10,
            forall|i: int| from <= i < end ==> #[trigger] bytes@[i] < 128,
            m == chars_of_bytes(bytes@.subrange(from as int, end as int)),
            all_dec_digits(m.subrange(0, j - from)),
            val == dec_value(m.subrange(0, j - from)),
            val < pow10((j - from) as nat),
        decreases end - j,
    {
        let b = bytes[j];
        let ghost p = m.subrange(0, j - from);
        proof {
            assert(m[j - from] == b as char);
        }
        if b < 48 || b > 57 {
            proof {
                assert(!is_dec_digit(m[j - from]));
            }
            return None;
        }
        proof {
            reveal_with_fuel(pow10, 12);
            lemma_pow10_mono((j - from) as nat, 9);
            assert(val < pow10(9));
            let p2 = m.subrange(0, j + 1 - from);
            assert(p2.drop_last() =~= p);
            assert(p2.last() == b as char);
            assert(is_dec_digit(b as char) && dec_digit_val(b as char) == b - 48);
            assert forall|i: int| 0 <= i < p2.len() implies is_dec_digit(#[trigger] p2[i]) by {
                if i < p.len() {
                    assert(p2[i] == p[i]);
                }
            }
        }
        val = val * 10 + ((b - 48) as u64);
        j = j + 1;
    }
    proof {
        assert(m.subrange(0, end - from) =~= m);
    }
    Some(val)
}

/// Tries to read the region as a signed decimal color.
fn try_signed(bytes: &Vec<u8>, start: usize, end: usize) -> (r: Option<u32>)
    requires
        start <= end <= bytes@.len(),
        forall|i: int| start <= i < end ==> #[trigger] bytes@[i] < 128,
    ensures
        ({
            let s = chars_of_bytes(bytes@.subrange(start as int, end as int));
            &&& r is Some <==> signed_color_form(s)
            &&& r matches Some(x) ==> x == signed_color_value(s)
        }),
{
    let ghost s = chars_of_bytes(bytes@.subrange(start as int, end as int));
    let negative = end > start && bytes[start] == 45;
    proof {
        if end > start {
            assert(s[0] == bytes@[start as int] as char);
            lemma_ascii_cast_inj(bytes@[start as int], 45);
            assert(negative <==> s[0] == '-');
        }
    }
    let from = if negative {
        start + 1
    } else {
        start
    };
    let ghost m = chars_of_bytes(bytes@.subrange(from as int, end as int));
    proof {
        if negative {
            assert(m =~= s.subrange(1, s.len() as int));
        } else {
            assert(m =~= s);
        }
    }
    match fold_dec_digits(bytes, from, end) {
        None => {
            proof {
                assert(!signed_color_form(s));
            }
            None
        }
        Some(val) => {
            proof {
                lemma_dec_value_bound(m);
            }
            if negative {
                if val <= 0x8000_0000 {
                    let x: u64 = (0x1_0000_0000u64 - val) % 0x1_0000_0000u64;
                    proof {
                        assert(signed_color_form(s));
                        assert(x as int == (0x1_0000_0000 - dec_value(m)) % 0x1_0000_0000);
                    }
                    Some(x as u32)
                } else {
                    proof {
                        assert(!signed_color_form(s));
                    }
                    None
                }
            } else {
                if val < 0x8000_0000 {
                    proof {
                        assert(signed_color_form(s));
                    }
                    Some(val as u32)
                } else {
                    proof {
                        assert(!signed_color_form(s));
                    }
                    None
                }
            }
        }
    }
}

/// Tries to read the region as a `#rrggbbaa` color.
fn try_hex(bytes: &Vec<u8>, start: usize, end: usize) -> (r: Option<u32>)
    requires
        start <= end <= bytes@.len(),
        forall|i: int| start <= i < end ==> #[trigger] bytes@[i] < 128,
    ensures
        ({
            let s = chars_of_bytes(bytes@.subrange(start as int, end as int));
            &&& r is Some <==> hex_color_form(s)
            &&& r matches Some(x) ==> x == hex_color_value(s)
        }),
{
    let ghost s = chars_of_bytes(bytes@.subrange(start as int, end as int));
    if end - start != 9 {
        proof {
            assert(s.len() == end - start);
        }
        return None;
    }
    if bytes[start] != 35 {
        proof {
            assert(s[0] == bytes@[start as int] as char);
            lemma_ascii_cast_inj(bytes@[start as int], 35);
        }
        return None;
    }
    let ghost m = chars_of_bytes(bytes@.subrange(start + 1, end as int));
    proof {
        assert(m =~= s.subrange(1, s.len() as int));
        assert(s[0] == '#');
    }
    let mut val: u64 = 0;
    let mut j: usize = start + 1;
    while j < end
        invariant
            start + 1 <= j <= end,
            end <= bytes@.len(),
            end == start + 9,
            bytes@[start as int] == 35,
            forall|i: int| start <= i < end ==> #[trigger] bytes@[i] < 128,
            m == chars_of_bytes(bytes@.subrange(start + 1, end as int)),
            forall|i: int| 0 <= i < j - start - 1 ==> is_hex_digit(#[trigger] m[i]),
            val == hex_value(m.subrange(0, j - start - 1)),
            val < pow16((j - start - 1) as nat),
        decreases end - j,
    {
        let b = bytes[j];
        let ghost p = m.subrange(0, j - start - 1);
        proof {
            assert(m[j - start - 1] == b as char);
        }
        let d: u64 = if 48 <= b && b <= 57 {
            (b - 48) as u64
        } else if 97 <= b && b <= 102 {
            (b - 87) as u64
        } else if 65 <= b && b <= 70 {
            (b - 55) as u64
        } else {
            proof {
                assert(!is_hex_digit(m[j - start - 1]));
                let sdef = chars_of_bytes(bytes@.subrange(start as int, end as int));
                assert(sdef.len() == 9);
                assert(bytes@.subrange(start as int, end as int)[j - start] == bytes@[j as int]);
                assert(sdef[j - start] == bytes@[j as int] as char);
                assert(sdef[j - start] == m[j - start - 1]);
                assert(!hex_color_form(sdef));
            }
            return None;
        };
        proof {
            reveal_with_fuel(pow16, 10);
            assert(pow16((j - start - 1) as nat) <= pow16(8)) by {
                let a = (j - start - 1) as nat;
                assert(a <= 8);
                assert(pow16(a) <= pow16(8)) by {
                    lemma_pow16_mono(a, 8);
                }
            }
            let p2 = m.subrange(0, j - start);
            assert(p2.drop_last() =~= p);
            assert(p2.last() == b as char);
            assert(is_hex_digit(b as char) && hex_digit_val(b as char) == d);
            assert forall|i: int| 0 <= i < p2.len() implies is_hex_digit(#[trigger] p2[i]) by {
                if i < p.len() {
                    assert(p2[i] == p[i]);
                }
            }
        }
        val = val * 16 + d;
        j = j + 1;
    }
    proof {
        assert(m.subrange(0, 8) =~= m);
        assert(hex_color_form(s)) by {
            assert forall|i: int| 1 <= i < 9 implies is_hex_digit(#[trigger] s[i]) by {
                assert(s[i] == m[i - 1]);
            }
        }
        reveal_with_fuel(pow16, 10);
    }
    let argb: u64 = (val % 256) * 0x100_0000 + val / 256;
    proof {
        assert(argb as int == (hex_value(m) % 256) * 0x100_0000 + hex_value(m) / 256);
        assert(argb < 0x1_0000_0000);
    }
    Some(argb as u32)
}

pub proof fn lemma_pow16_mono(a: nat, b: nat)
    requires
        a <= b,
    ensures
        pow16(a) <= pow16(b),
        pow16(a) >= 1,
    decreases b,
{
    if b > 0 {
        if a == b {
            lemma_pow16_mono((a - 1) as nat, (b - 1) as nat);
        } else {
            lemma_pow16_mono(a, (b - 1) as nat);
        }
    }
}

/// Reads the value region of a declaration line back as a `Value`.
pub(crate) fn classify_value_bytes(bytes: &Vec<u8>, start: usize, end: usize) -> (v: Value)
    requires
        start <= end <= bytes@.len(),
        forall|i: int| start <= i < end ==> #[trigger] bytes@[i] < 128,
    ensures
        v@ == classify_chars(chars_of_bytes(bytes@.subrange(start as int, end as int))),
{
    let ghost s = chars_of_bytes(bytes@.subrange(start as int, end as int));
    if is_lit_true(bytes, start, end) {
        return Value::Boolean(true);
    }
    if is_lit_false(bytes, start, end) {
        return Value::Boolean(false);
    }
    if let Some(x) = try_signed(bytes, start, end) {
        return Value::Color(x);
    }
    if let Some(x) = try_hex(bytes, start, end) {
        return Value::Color(x);
    }
    let mut copy: Vec<u8> = Vec::new();
    let mut j: usize = start;
    while j < end
        invariant
            start <= j <= end,
            end <= bytes@.len(),
            forall|i: int| start <= i < end ==> #[trigger] bytes@[i] < 128,
            copy@ == bytes@.subrange(start as int, j as int),
        decreases end - j,
    {
        copy.push(bytes[j]);
        proof {
            assert(copy@ =~= bytes@.subrange(start as int, j + 1));
        }
        j = j + 1;
    }
    proof {
        assert(copy@ =~= bytes@.subrange(start as int, end as int));
    }
    let text = string_from_ascii(copy);
    Value::Text(text)
}

} // verus!
