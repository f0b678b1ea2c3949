//! The vector backend's text: SVG markup pieces, XML escaping, and the
//! base64 of the PNG the mesh underlay is embedded as.

use vstd::prelude::*;

use super::palette::Rgba8;
use super::raster::Image;
use super::text::{decimal, digit, digit_char, push_char, push_decimal};

verus! {

/// What XML text holds in place of `c`.
pub open spec fn escape_char(c: char) -> Seq<char> {
    if c == '&' {
        "&amp;"@
    } else if c == '<' {
        "&lt;"@
    } else if c == '>' {
        "&gt;"@
    } else if c == '"' {
        "&quot;"@
    } else if c == '\'' {
        "&apos;"@
    } else {
        seq![c]
    }
}

/// `s` with each character escaped for XML text.
pub open spec fn escaped(s: Seq<char>) -> Seq<char>
    decreases s.len(),
{
    if s.len() == 0 {
        Seq::empty()
    } else {
        escaped(s.drop_last()) + escape_char(s.last())
    }
}

/// Escapes the five characters that may not appear literally in XML text.
pub fn escape(s: &str) -> (r: String)
    ensures
        r@ == escaped(s@),
{
    let mut out = String::new();
    proof {
        broadcast use vstd::string::axiom_spec_iter;
    }
    for c in it: s.chars()
        invariant
            it.seq() == s@,
            out@ == escaped(s@.take(it.index() as int)),
    {
        proof {
            assert(s@.take(it.index() + 1).drop_last() =~= s@.take(it.index() as int));
        }
        if c == '&' {
            out.append("&amp;");
        } else if c == '<' {
            out.append("&lt;");
        } else if c == '>' {
            out.append("&gt;");
        } else if c == '"' {
            out.append("&quot;");
        } else if c == '\'' {
            out.append("&apos;");
        } else {
            push_char(&mut out, c);
        }
    }
    proof {
        assert(s@.take(s@.len() as int) =~= s@);
    }
    out
}

/// A colour's alpha as an opacity in thousandths, rounded to nearest (no
/// alpha falls exactly halfway).
pub open spec fn opacity_thousandths(a: u8) -> nat {
    ((a as nat) * 2000 + 255) / 510
}

/// A colour's alpha as a decimal opacity with three fraction digits.
pub open spec fn opacity_text(a: u8) -> Seq<char> {
    let t = opacity_thousandths(a);
    seq![digit_char(t / 1000), '.', digit_char((t / 100) % 10), digit_char((t / 10) % 10), digit_char(t % 10)]
}

/// The `fill`/`stroke` attributes for a colour, its alpha as an opacity.
pub open spec fn paint_text(kind: Seq<char>, c: Rgba8) -> Seq<char> {
    kind + "=\"rgb("@ + decimal(c[0] as nat) + ","@ + decimal(c[1] as nat) + ","@ + decimal(c[2] as nat)
        + ")\" "@ + kind + "-opacity=\""@ + opacity_text(c[3]) + "\""@
}

/// `fill`/`stroke` attributes for a colour, with its alpha as an opacity.
pub fn paint(kind: &str, c: Rgba8) -> (r: String)
    ensures
        r@ == paint_text(kind@, c),
{
    let mut out = String::from_str(kind);
    out.append("=\"rgb(");
    push_decimal(&mut out, c[0] as u64);
    out.append(",");
    push_decimal(&mut out, c[1] as u64);
    out.append(",");
    push_decimal(&mut out, c[2] as u64);
    out.append(")\" ");
    out.append(kind);
    out.append("-opacity=\"");
    let t: u32 = ((c[3] as u32) * 2000 + 255) / 510;
    push_char(&mut out, digit((t / 1000) as u64));
    push_char(&mut out, '.');
    push_char(&mut out, digit(((t / 100) % 10) as u64));
    push_char(&mut out, digit(((t / 10) % 10) as u64));
    push_char(&mut out, digit((t % 10) as u64));
    out.append("\"");
    proof {
        assert(out@ =~= paint_text(kind@, c));
    }
    out
}

/// The document an SVG body of `body` becomes on a `width` x `height` page.
pub open spec fn svg_document(body: Seq<char>, width: u32, height: u32) -> Seq<char> {
    "<svg xmlns=\"http://www.w3.org/2000/svg\" width=\""@ + decimal(width as nat) + "\" height=\""@
        + decimal(height as nat) + "\" viewBox=\"0 0 "@ + decimal(width as nat) + " "@ + decimal(height as nat)
        + "\">\n"@ + body + "</svg>\n"@
}

/// SVG elements appended one per line to a document body.
pub struct SvgCanvas {
    body: String,
}

impl View for SvgCanvas {
    type V = Seq<char>;

    /// The body written so far.
    closed spec fn view(&self) -> Seq<char> {
        self.body@
    }
}

impl SvgCanvas {
    /// An empty body.
    pub fn new() -> (r: SvgCanvas)
        ensures
            r@ == Seq::<char>::empty(),
    {
        SvgCanvas { body: String::new() }
    }

    /// Appends one element, on a line of its own.
    pub fn push(&mut self, el: &str)
        ensures
            final(self)@ == old(self)@ + el@ + seq!['\n'],
    {
        self.body.append(el);
        push_char(&mut self.body, '\n');
    }

    /// Wraps everything drawn so far in an `<svg>` root of `width` x `height`.
    pub fn finish(self, width: u32, height: u32) -> (r: String)
        ensures
            r@ == svg_document(self@, width, height),
    {
        let mut out = String::from_str("<svg xmlns=\"http://www.w3.org/2000/svg\" width=\"");
        push_decimal(&mut out, width as u64);
        out.append("\" height=\"");
        push_decimal(&mut out, height as u64);
        out.append("\" viewBox=\"0 0 ");
        push_decimal(&mut out, width as u64);
        out.append(" ");
        push_decimal(&mut out, height as u64);
        out.append("\">\n");
        out.append(self.body.as_str());
        out.append("</svg>\n");
        proof {
            assert(out@ =~= svg_document(self@, width, height));
        }
        out
    }
}

/// The base64 alphabet: `A`..`Z`, `a`..`z`, `0`..`9`, `+`, `/`.
pub open spec fn b64_char(k: nat) -> char {
    if k < 26 {
        (65 + k) as char
    } else if k < 52 {
        (97 + (k - 26)) as char
    } else if k < 62 {
        (48 + (k - 52)) as char
    } else if k == 62 {
        '+'
    } else {
        '/'
    }
}

/// The four characters of a group of `len` (1 to 3) bytes `b0 b1 b2`, the
/// missing bytes read as zero and their characters padded with `=`.
pub open spec fn b64_quad(b0: u8, b1: u8, b2: u8, len: int) -> Seq<char> {
    let n = (b0 as nat) * 65536 + (b1 as nat) * 256 + (b2 as nat);
    seq![
        b64_char((n / 262144) % 64),
        b64_char((n / 4096) % 64),
        if len >= 2 { b64_char((n / 64) % 64) } else { '=' },
        if len >= 3 { b64_char(n % 64) } else { '=' },
    ]
}

/// Byte `i` of `d`, or zero past its end.
pub open spec fn byte_or_zero(d: Seq<u8>, i: int) -> u8 {
    if 0 <= i < d.len() { d[i] } else { 0 }
}

/// The number of bytes in group `j` of `d`.
pub open spec fn group_len(d: Seq<u8>, j: int) -> int {
    if d.len() - 3 * j >= 3 { 3 } else { d.len() - 3 * j }
}

/// The four characters encoding group `j` (bytes `3j`, `3j+1`, `3j+2`) of `d`.
pub open spec fn b64_group(d: Seq<u8>, j: int) -> Seq<char> {
    b64_quad(byte_or_zero(d, 3 * j), byte_or_zero(d, 3 * j + 1), byte_or_zero(d, 3 * j + 2), group_len(d, j))
}

/// The first `k` groups of `d`, encoded.
pub open spec fn b64_groups(d: Seq<u8>, k: nat) -> Seq<char>
    decreases k,
{
    if k == 0 {
        Seq::empty()
    } else {
        b64_groups(d, (k - 1) as nat) + b64_group(d, k - 1)
    }
}

/// Standard base64 of `d`, with `=` padding.
pub open spec fn base64_of(d: Seq<u8>) -> Seq<char> {
    b64_groups(d, ((d.len() + 2) / 3) as nat)
}

fn b64_char_exec(k: u32) -> (c: char)
    requires
        k < 64,
    ensures
        c == b64_char(k as nat),
{
    if k < 26 {
        (65 + k as u8) as char
    } else if k < 52 {
        (97 + (k - 26) as u8) as char
    } else if k < 62 {
        (48 + (k - 52) as u8) as char
    } else if k == 62 {
        '+'
    } else {
        '/'
    }
}

/// Standard base64 with `=` padding.
pub fn base64(data: &[u8]) -> (r: String)
    ensures
        r@ == base64_of(data@),
{
    let n = data.len();
    let mut out = String::new();
    let mut i: usize = 0;
    let ghost mut j: int = 0;
    while i < n
        invariant
            n == data@.len(),
            i <= n,
            0 <= j,
            i < n ==> i == 3 * j,
            i == n ==> j == (n + 2) / 3,
            out@ == b64_groups(data@, j as nat),
        decreases n - i,
    {
        let len: usize = if n - i >= 3 { 3 } else { n - i };
        let b0 = data[i];
        let b1 = if len >= 2 { data[i + 1] } else { 0 };
        let b2 = if len >= 3 { data[i + 2] } else { 0 };
        let v: u32 = (b0 as u32) * 65536 + (b1 as u32) * 256 + (b2 as u32);
        push_char(&mut out, b64_char_exec((v / 262144) % 64));
        push_char(&mut out, b64_char_exec((v / 4096) % 64));
        if len >= 2 {
            push_char(&mut out, b64_char_exec((v / 64) % 64));
        } else {
            push_char(&mut out, '=');
        }
        if len >= 3 {
            push_char(&mut out, b64_char_exec(v % 64));
        } else {
            push_char(&mut out, '=');
        }
        proof {
            assert(byte_or_zero(data@, 3 * j) == b0);
            assert(byte_or_zero(data@, 3 * j + 1) == b1);
            assert(byte_or_zero(data@, 3 * j + 2) == b2);
            assert(group_len(data@, j) == len);
            assert(out@ =~= b64_groups(data@, (j + 1) as nat));
        }
        i = i + len;
        proof {
            j = j + 1;
        }
    }
    out
}

/// The PNG byte stream that `image`'s `PngEncoder`, at its default settings,
/// writes for `width` x `height` RGBA pixels `raw`, or `None` when it fails.
pub uninterp spec fn png_encoding(raw: Seq<u8>, width: u32, height: u32) -> Option<Seq<u8>>;

/// Encodes RGBA pixels as PNG with `image::codecs::png::PngEncoder` at its
/// default compression and filter. Claimed: the bytes written are
/// `png_encoding` of the arguments, and `None` stands for an encoder error.
/// The encoder asserts that `raw` holds exactly four bytes per pixel.
#[verifier::external_body]
fn encode_png(raw: &[u8], width: u32, height: u32) -> (r: Option<Vec<u8>>)
    requires
        raw@.len() == 4 * width * height,
    ensures
        match r {
            Some(v) => png_encoding(raw@, width, height) == Some(v@),
            None => png_encoding(raw@, width, height) is None,
        },
{
    let mut buf = Vec::new();
    let encoder = image::codecs::png::PngEncoder::new(&mut buf);
    image::ImageEncoder::write_image(encoder, raw, width, height, image::ExtendedColorType::Rgba8).ok()?;
    Some(buf)
}

/// The `data:` URI of `img` encoded as PNG, when the encoder succeeds.
pub open spec fn png_data_uri_of(png: Option<Seq<u8>>) -> Option<Seq<char>> {
    match png {
        Some(bytes) => Some("data:image/png;base64,"@ + base64_of(bytes)),
        None => None,
    }
}

/// `img` as an inline `data:image/png;base64,` URI, so that the triangle
/// underlay of the vector page travels as one bitmap.
pub fn png_data_uri(img: &Image) -> (r: Option<String>)
    requires
        img.wf(),
    ensures
        match r {
            Some(s) => png_data_uri_of(png_encoding(img.raw(), img.spec_width() as u32, img.spec_height() as u32)) == Some(s@),
            None => png_encoding(img.raw(), img.spec_width() as u32, img.spec_height() as u32) is None,
        },
{
    let raw = img.to_raw();
    match encode_png(raw.as_slice(), img.width(), img.height()) {
        Some(png) => {
            let mut out = String::from_str("data:image/png;base64,");
            let b = base64(png.as_slice());
            out.append(b.as_str());
            Some(out)
        },
        None => None,
    }
}

/// Whether `c` is one of the 64 characters of the base64 alphabet.
pub open spec fn is_b64_alphabet(c: char) -> bool {
    ('A' <= c && c <= 'Z') || ('a' <= c && c <= 'z') || ('0' <= c && c <= '9') || c == '+' || c == '/'
}

proof fn lemma_b64_char_in_alphabet(k: nat)
    requires
        k < 64,
    ensures
        is_b64_alphabet(b64_char(k)),
        b64_char(k) != '=',
{
}

proof fn lemma_b64_groups_len(d: Seq<u8>, k: nat)
    ensures
        b64_groups(d, k).len() == 4 * k,
    decreases k,
{
    if k > 0 {
        lemma_b64_groups_len(d, (k - 1) as nat);
    }
}

proof fn lemma_b64_groups_index(d: Seq<u8>, k: nat, i: int)
    requires
        0 <= i < 4 * k,
    ensures
        b64_groups(d, k)[i] == b64_group(d, i / 4)[i % 4],
    decreases k,
{
    lemma_b64_groups_len(d, (k - 1) as nat);
    if i < 4 * (k - 1) {
        lemma_b64_groups_index(d, (k - 1) as nat, i);
    }
}

/// The number of `=` a base64 text of `n` bytes ends with.
pub open spec fn b64_padding(n: nat) -> nat {
    ((3 - (n % 3) as int) % 3) as nat
}

/// Base64 turns every three bytes, the last group possibly short, into four
/// characters of the alphabet, and pads a short last group with one `=` per
/// missing byte; `=` appears nowhere else.
pub proof fn lemma_base64_shape(d: Seq<u8>)
    ensures
        base64_of(d).len() == 4 * ((d.len() + 2) / 3),
        forall|i: int| 0 <= i < base64_of(d).len() ==>
            (#[trigger] base64_of(d)[i] == '=' <==> i >= base64_of(d).len() - b64_padding(d.len())),
        forall|i: int| 0 <= i < base64_of(d).len() && #[trigger] base64_of(d)[i] != '=' ==>
            is_b64_alphabet(base64_of(d)[i]),
{
    let n = d.len();
    let k = ((n + 2) / 3) as nat;
    lemma_b64_groups_len(d, k);
    assert forall|i: int| 0 <= i < base64_of(d).len() implies
        (#[trigger] base64_of(d)[i] == '=' <==> i >= base64_of(d).len() - b64_padding(d.len()))
        && (base64_of(d)[i] != '=' ==> is_b64_alphabet(base64_of(d)[i])) by {
        lemma_b64_groups_index(d, k, i);
        let j = i / 4;
        let q = i % 4;
        let b0 = byte_or_zero(d, 3 * j);
        let b1 = byte_or_zero(d, 3 * j + 1);
        let b2 = byte_or_zero(d, 3 * j + 2);
        let v = (b0 as nat) * 65536 + (b1 as nat) * 256 + (b2 as nat);
        lemma_b64_char_in_alphabet((v / 262144) % 64);
        lemma_b64_char_in_alphabet((v / 4096) % 64);
        lemma_b64_char_in_alphabet((v / 64) % 64);
        lemma_b64_char_in_alphabet(v % 64);
    }
}

/// The 6-bit value of a base64 character (zero for anything else).
pub open spec fn b64_value(c: char) -> nat {
    if 'A' <= c && c <= 'Z' {
        (c as nat - 65) as nat
    } else if 'a' <= c && c <= 'z' {
        (c as nat - 71) as nat
    } else if '0' <= c && c <= '9' {
        (c as nat + 4) as nat
    } else if c == '+' {
        62
    } else if c == '/' {
        63
    } else {
        0
    }
}

/// The bytes a group of four base64 characters stands for: three, less one
/// per `=` of padding.
pub open spec fn decode_quad(q: Seq<char>) -> Seq<u8> {
    let n = b64_value(q[0]) * 262144 + b64_value(q[1]) * 4096 + b64_value(q[2]) * 64 + b64_value(q[3]);
    let bytes = seq![(n / 65536 % 256) as u8, (n / 256 % 256) as u8, (n % 256) as u8];
    if q[2] == '=' { bytes.take(1) } else if q[3] == '=' { bytes.take(2) } else { bytes }
}

/// The bytes the first `k` groups of four characters of `e` stand for.
pub open spec fn decode_groups(e: Seq<char>, k: nat) -> Seq<u8>
    decreases k,
{
    if k == 0 {
        Seq::empty()
    } else {
        decode_groups(e, (k - 1) as nat) + decode_quad(e.subrange(4 * k - 4, 4 * k as int))
    }
}

/// Decoding base64 text, read as whole groups of four characters.
pub open spec fn decode_base64(e: Seq<char>) -> Seq<u8> {
    decode_groups(e, e.len() / 4)
}

proof fn lemma_b64_value_inverts(k: nat)
    requires
        k < 64,
    ensures
        b64_value(b64_char(k)) == k,
{
}

proof fn lemma_sextets_recombine(n: u32)
    requires
        n < 16777216,
    ensures
        ((n / 262144) % 64) * 262144 + ((n / 4096) % 64) * 4096 + ((n / 64) % 64) * 64 + n % 64 == n,
{
    assert(((n / 262144) % 64) * 262144 + ((n / 4096) % 64) * 4096 + ((n / 64) % 64) * 64 + n % 64 == n) by (bit_vector)
        requires n < 16777216u32;
}

proof fn lemma_bytes_recover(b0: u8, b1: u8, b2: u8)
    ensures
        ((b0 as nat) * 65536 + (b1 as nat) * 256 + (b2 as nat)) / 65536 % 256 == b0,
        ((b0 as nat) * 65536 + (b1 as nat) * 256 + (b2 as nat)) / 256 % 256 == b1,
        ((b0 as nat) * 65536 + (b1 as nat) * 256 + (b2 as nat)) % 256 == b2,
        ((b0 as nat) * 65536 + (b1 as nat) * 256 + (b2 as nat)) < 16777216,
{
    let x0 = b0 as u32;
    let x1 = b1 as u32;
    let x2 = b2 as u32;
    assert((x0 * 65536 + x1 * 256 + x2) / 65536 % 256 == x0 && (x0 * 65536 + x1 * 256 + x2) / 256 % 256 == x1
        && (x0 * 65536 + x1 * 256 + x2) % 256 == x2 && x0 * 65536 + x1 * 256 + x2 < 16777216) by (bit_vector)
        requires x0 < 256u32, x1 < 256u32, x2 < 256u32;
}

proof fn lemma_padding_sextets_zero(b0: u8, b1: u8, b2: u8)
    ensures
        b2 == 0 ==> ((b0 as nat) * 65536 + (b1 as nat) * 256 + (b2 as nat)) % 64 == 0,
        b1 == 0 && b2 == 0 ==> (((b0 as nat) * 65536 + (b1 as nat) * 256 + (b2 as nat)) / 64) % 64 == 0,
{
    let x0 = b0 as u32;
    let x1 = b1 as u32;
    let x2 = b2 as u32;
    assert((x2 == 0 ==> (x0 * 65536 + x1 * 256 + x2) % 64 == 0)
        && (x1 == 0 && x2 == 0 ==> ((x0 * 65536 + x1 * 256 + x2) / 64) % 64 == 0)) by (bit_vector)
        requires x0 < 256u32, x1 < 256u32, x2 < 256u32;
}

proof fn lemma_quad_decodes(b0: u8, b1: u8, b2: u8, len: int)
    requires
        1 <= len <= 3,
        len < 3 ==> b2 == 0,
        len < 2 ==> b1 == 0,
    ensures
        decode_quad(b64_quad(b0, b1, b2, len)) == seq![b0, b1, b2].take(len),
{
    let n = (b0 as nat) * 65536 + (b1 as nat) * 256 + (b2 as nat);
    lemma_bytes_recover(b0, b1, b2);
    lemma_padding_sextets_zero(b0, b1, b2);
    let i0 = (n / 262144) % 64;
    let i1 = (n / 4096) % 64;
    let i2 = (n / 64) % 64;
    let i3 = n % 64;
    let q = b64_quad(b0, b1, b2, len);
    assert(b64_value(q[0]) == i0) by {
        lemma_b64_value_inverts(i0);
    }
    assert(b64_value(q[1]) == i1) by {
        lemma_b64_value_inverts(i1);
    }
    assert(b64_value(q[2]) == i2) by {
        lemma_b64_value_inverts(i2);
    }
    assert(b64_value(q[3]) == i3) by {
        lemma_b64_value_inverts(i3);
    }
    assert(i0 * 262144 + i1 * 4096 + i2 * 64 + i3 == n) by {
        lemma_sextets_recombine(n as u32);
    }
    assert(q[2] == '=' <==> len < 2) by {
        lemma_b64_char_in_alphabet(i2);
    }
    assert(q[3] == '=' <==> len < 3) by {
        lemma_b64_char_in_alphabet(i3);
    }
    let bytes = seq![(n / 65536 % 256) as u8, (n / 256 % 256) as u8, (n % 256) as u8];
    assert(bytes =~= seq![b0, b1, b2]);
    assert(decode_quad(q) =~= seq![b0, b1, b2].take(len));
}

/// Decoding what `base64` writes gives back the bytes it was given.
pub proof fn lemma_base64_round_trip(d: Seq<u8>)
    ensures
        decode_base64(base64_of(d)) == d,
{
    let n = d.len();
    let kk = ((n + 2) / 3) as nat;
    let e = base64_of(d);
    lemma_b64_groups_len(d, kk);
    assert(e.len() / 4 == kk);
    assert forall|k: nat| k <= kk implies #[trigger] decode_groups(e, k) == d.take(if 3 * k <= n { 3 * k as int } else { n as int }) by {
        lemma_decode_prefix(d, k);
    }
    assert(d.take(n as int) =~= d);
}

proof fn lemma_decode_prefix(d: Seq<u8>, k: nat)
    requires
        k <= (d.len() + 2) / 3,
    ensures
        decode_groups(base64_of(d), k) == d.take(if 3 * k <= d.len() { 3 * k as int } else { d.len() as int }),
    decreases k,
{
    let n = d.len();
    let kk = ((n + 2) / 3) as nat;
    let e = base64_of(d);
    lemma_b64_groups_len(d, kk);
    if k > 0 {
        lemma_decode_prefix(d, (k - 1) as nat);
        let j = k - 1;
        let q = e.subrange(4 * k - 4, 4 * k as int);
        assert forall|i: int| 0 <= i < 4 implies q[i] == b64_group(d, j)[i] by {
            lemma_b64_groups_index(d, kk, 4 * j + i);
            assert((4 * j + i) / 4 == j);
            assert((4 * j + i) % 4 == i);
        }
        assert(q =~= b64_group(d, j));
        let len = group_len(d, j);
        lemma_quad_decodes(byte_or_zero(d, 3 * j), byte_or_zero(d, 3 * j + 1), byte_or_zero(d, 3 * j + 2), len);
        let prev = d.take(3 * j);
        assert(d.take(if 3 * k <= n { 3 * k as int } else { n as int }) =~= prev + seq![
            byte_or_zero(d, 3 * j), byte_or_zero(d, 3 * j + 1), byte_or_zero(d, 3 * j + 2)].take(len));
    }
}

/// The characters that may not appear literally in XML text besides `&`.
pub open spec fn markup_char(c: char) -> bool {
    c == '<' || c == '>' || c == '"' || c == '\''
}

proof fn lemma_escape_char_has_no_markup(c: char)
    ensures
        forall|i: int| 0 <= i < escape_char(c).len() ==> !markup_char(#[trigger] escape_char(c)[i]),
{
    reveal_strlit("&amp;");
    reveal_strlit("&lt;");
    reveal_strlit("&gt;");
    reveal_strlit("&quot;");
    reveal_strlit("&apos;");
}

/// Escaped text holds no `<`, `>`, `"` or `'`.
pub proof fn lemma_escaped_has_no_markup(s: Seq<char>)
    ensures
        forall|i: int| 0 <= i < escaped(s).len() ==> !markup_char(#[trigger] escaped(s)[i]),
    decreases s.len(),
{
    if s.len() > 0 {
        lemma_escaped_has_no_markup(s.drop_last());
        lemma_escape_char_has_no_markup(s.last());
        let a = escaped(s.drop_last());
        let b = escape_char(s.last());
        assert forall|i: int| 0 <= i < escaped(s).len() implies !markup_char(#[trigger] escaped(s)[i]) by {
            if i < a.len() {
                assert(escaped(s)[i] == a[i]);
            } else {
                assert(escaped(s)[i] == b[i - a.len()]);
            }
        }
    }
}

/// Text without `&`, `<`, `>`, `"` and `'` is left as it is.
pub proof fn lemma_plain_text_unescaped(s: Seq<char>)
    requires
        forall|i: int| 0 <= i < s.len() ==> !markup_char(#[trigger] s[i]) && s[i] != '&',
    ensures
        escaped(s) == s,
    decreases s.len(),
{
    if s.len() > 0 {
        lemma_plain_text_unescaped(s.drop_last());
        assert(s.drop_last().push(s.last()) =~= s);
    }
}

/// The opening of every document: the SVG root element in its namespace.
pub open spec fn svg_root_start() -> Seq<char> {
    "<svg xmlns=\"http://www.w3.org/2000/svg\""@
}

/// A finished document opens with the SVG root in its namespace, closes the
/// root on the last line, and holds the body, unchanged, right before the
/// closing tag.
pub proof fn lemma_svg_document_shape(body: Seq<char>, width: u32, height: u32)
    ensures
        svg_document(body, width, height).len() >= svg_root_start().len() + body.len() + 7,
        svg_document(body, width, height).take(svg_root_start().len() as int) == svg_root_start(),
        svg_document(body, width, height).skip(svg_document(body, width, height).len() - 7) == "</svg>\n"@,
        svg_document(body, width, height).subrange(
            svg_document(body, width, height).len() - 7 - body.len(),
            svg_document(body, width, height).len() - 7,
        ) == body,
{
    reveal_strlit("<svg xmlns=\"http://www.w3.org/2000/svg\"");
    reveal_strlit("<svg xmlns=\"http://www.w3.org/2000/svg\" width=\"");
    reveal_strlit("</svg>\n");
    let doc = svg_document(body, width, height);
    let head = "<svg xmlns=\"http://www.w3.org/2000/svg\" width=\""@ + decimal(width as nat) + "\" height=\""@
        + decimal(height as nat) + "\" viewBox=\"0 0 "@ + decimal(width as nat) + " "@ + decimal(height as nat)
        + "\">\n"@;
    assert(doc == head + body + "</svg>\n"@);
    assert(doc.take(svg_root_start().len() as int) =~= svg_root_start());
    assert(doc.skip(doc.len() - 7) =~= "</svg>\n"@);
    assert(doc.subrange(doc.len() - 7 - body.len(), doc.len() - 7) =~= body);
}

} // verus!
