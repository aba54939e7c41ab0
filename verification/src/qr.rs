//! The picture from which a phone reads the address of the service.

use vstd::prelude::*;

verus! {

/// The least width and height of the picture, in pixels.
pub const PICTURE_SIDE: u32 = 240;

/// The longest data that is handed to the encoder, in bytes. The encoder rates each
/// way to mask a code with a score of 16 bits, which can overflow for large codes.
/// This much data takes at most 2253 bits, so that the code has at most 65 modules to
/// a side, where even the greatest values of all parts of the score fit together.
pub const MAX_DATA: usize = 180;

/// What the encoder and the renderer make of data: a picture of at least the width
/// and height that are asked for, as text, or the message that says why there is
/// none.
pub uninterp spec fn qr_picture(data: Seq<u8>, min_width: u32, min_height: u32) -> Result<
    Seq<char>,
    Seq<char>,
>;

/// The start of a picture, up to the outline of the dark modules.
pub open spec fn picture_head(width: u32, height: u32) -> Seq<char> {
    let w = crate::decimal::decimal(width as nat);
    let h = crate::decimal::decimal(height as nat);
    "<?xml version=\"1.0\" standalone=\"yes\"?>"@ + ("<svg"@ + (
    " xmlns=\"http://www.w3.org/2000/svg\" version=\"1.1\" width=\""@ + w + "\" height=\""@ + h
        + "\" viewBox=\"0 0 "@ + w + " "@ + h + "\" shape-rendering=\"crispEdges\">"@
        + "<rect x=\"0\" y=\"0\" width=\""@ + w + "\" height=\""@ + h + "\" fill=\"#fff\"/>"@ + (
    "<path"@ + " fill=\"#000\" d=\""@)))
}

/// Whether a text is a picture with at least the width and height that are asked
/// for: an SVG document that consists of a white ground and one black path.
pub open spec fn is_picture(s: Seq<char>, min_width: u32, min_height: u32) -> bool {
    exists|width: u32, height: u32|
        {
            &&& min_width <= width
            &&& min_height <= height
            &&& #[trigger] picture_head(width, height).is_prefix_of(s)
            &&& "\"/></svg>"@.is_suffix_of(s)
        }
}

/// `qrcode::QrCode::new`, and the rendering of the code that it makes as an SVG
/// document of at least the width and height that are given (`QrCode::render` with
/// `render::svg::Color`, `Renderer::min_dimensions` and `Renderer::build`). The
/// outcome depends on the arguments alone. Data of this length fits into a code, so
/// there is a document; its start and its end are as stated. The path that draws the
/// code is left to the name. Longer data is left out because the encoder can panic on
/// it.
#[verifier::external_body]
fn render_code(data: &[u8], min_width: u32, min_height: u32) -> (r: Result<String, String>)
    requires
        data@.len() <= MAX_DATA,
        min_width <= 0xffff_ff00,
        min_height <= 0xffff_ff00,
    ensures
        crate::text::result_view(r) == qr_picture(data@, min_width, min_height),
        r is Ok,
        r matches Ok(s) ==> is_picture(s@, min_width, min_height),
{
    let code = qrcode::QrCode::new(data).map_err(|e| e.to_string())?;
    Ok(
        code.render::<qrcode::render::svg::Color>().min_dimensions(
            min_width,
            min_height,
        ).build(),
    )
}

/// A code for an address, as an SVG document.
pub fn qr_svg(url: &str) -> (r: Result<String, String>)
    requires
        vstd::utf8::encode_utf8(url@).len() <= MAX_DATA,
    ensures
        crate::text::result_view(r) == qr_picture(
            vstd::utf8::encode_utf8(url@),
            PICTURE_SIDE,
            PICTURE_SIDE,
        ),
        r is Ok,
        r matches Ok(s) ==> is_picture(s@, PICTURE_SIDE, PICTURE_SIDE),
{
    render_code(url.as_bytes(), PICTURE_SIDE, PICTURE_SIDE)
}

/// Whether a text holds another.
pub open spec fn holds(s: Seq<char>, part: Seq<char>) -> bool {
    exists|i: int|
        0 <= i <= s.len() - part.len() && #[trigger] s.subrange(i, i + part.len()) == part
}

proof fn lemma_holds_middle(a: Seq<char>, part: Seq<char>, b: Seq<char>)
    ensures
        holds(a + (part + b), part),
{
    let s = a + (part + b);
    assert(s.subrange(a.len() as int, a.len() as int + part.len()) =~= part);
}

proof fn lemma_holds_after(a: Seq<char>, s: Seq<char>, part: Seq<char>)
    requires
        holds(s, part),
    ensures
        holds(a + s, part),
{
    let i = choose|i: int|
        0 <= i <= s.len() - part.len() && #[trigger] s.subrange(i, i + part.len()) == part;
    assert((a + s).subrange(a.len() + i, a.len() + i + part.len()) =~= s.subrange(
        i,
        i + part.len(),
    ));
}

proof fn lemma_holds_longer(s: Seq<char>, t: Seq<char>, part: Seq<char>)
    requires
        holds(s, part),
        s.is_prefix_of(t),
    ensures
        holds(t, part),
{
    let i = choose|i: int|
        0 <= i <= s.len() - part.len() && #[trigger] s.subrange(i, i + part.len()) == part;
    assert(t.subrange(i, i + part.len()) =~= s.subrange(i, i + part.len()));
}

/// A picture is an SVG document that draws a path.
pub proof fn law_picture_is_svg_with_path(s: Seq<char>, min_width: u32, min_height: u32)
    requires
        is_picture(s, min_width, min_height),
    ensures
        holds(s, "<svg"@),
        holds(s, "<path"@),
{
    let (width, height) = choose|width: u32, height: u32|
        {
            &&& min_width <= width
            &&& min_height <= height
            &&& #[trigger] picture_head(width, height).is_prefix_of(s)
            &&& "\"/></svg>"@.is_suffix_of(s)
        };
    let head = picture_head(width, height);
    let xml = "<?xml version=\"1.0\" standalone=\"yes\"?>"@;
    let w = crate::decimal::decimal(width as nat);
    let h = crate::decimal::decimal(height as nat);
    let middle = " xmlns=\"http://www.w3.org/2000/svg\" version=\"1.1\" width=\""@ + w
        + "\" height=\""@ + h + "\" viewBox=\"0 0 "@ + w + " "@ + h
        + "\" shape-rendering=\"crispEdges\">"@ + "<rect x=\"0\" y=\"0\" width=\""@ + w
        + "\" height=\""@ + h + "\" fill=\"#fff\"/>"@;
    let end = " fill=\"#000\" d=\""@;
    lemma_holds_middle(xml, "<svg"@, middle + ("<path"@ + end));
    lemma_holds_middle(middle, "<path"@, end);
    lemma_holds_after("<svg"@, middle + ("<path"@ + end), "<path"@);
    lemma_holds_after(xml, "<svg"@ + (middle + ("<path"@ + end)), "<path"@);
    lemma_holds_longer(head, s, "<svg"@);
    lemma_holds_longer(head, s, "<path"@);
}

} // verus!
