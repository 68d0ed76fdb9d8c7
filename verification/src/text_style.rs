//! How text is set: fonts, sizes, alignment.

use vstd::prelude::*;

use crate::dxf_file::{MText, Style, Text};
use crate::number::{Real, POSITIVE_ZERO};

verus! {

/// Generic font families.
#[derive(Debug, Clone, Copy, PartialEq, Eq, Structural)]
pub enum FontFamily {
    Serif,
    SansSerif,
    Monospace,
    Cursive,
}

/// Font widths.
#[derive(Debug, Clone, Copy, PartialEq, Eq, Structural)]
pub enum FontWidth {
    /// This part of the normal width.
    Ratio(Real),
    /// The usual condensed width.
    Condensed,
}

/// Font styles other than upright.
#[derive(Debug, Clone, Copy, PartialEq, Eq, Structural)]
pub enum FontSlant {
    Italic,
    /// Slanted by an angle in degrees.
    Oblique(Real),
}

/// Font weights other than normal.
#[derive(Debug, Clone, Copy, PartialEq, Eq, Structural)]
pub enum FontWeight {
    Bold,
    ExtraBold,
}

/// How a text is set. What is `None` is left to the renderer's defaults.
#[derive(Debug, Clone, Copy, PartialEq, Eq, Structural)]
pub struct TextStyle {
    pub size: Real,
    /// Whether lines are exactly as high as the size.
    pub solid_lines: bool,
    pub width: Option<FontWidth>,
    pub slant: Option<FontSlant>,
    pub weight: Option<FontWeight>,
    pub family: Option<FontFamily>,
}

/// Where a text hangs on its insertion point.
#[derive(Debug, Clone, Copy, PartialEq, Eq, Structural)]
pub enum TextAttachment {
    TopLeft,
    TopCenter,
    TopRight,
    MiddleLeft,
    MiddleCenter,
    MiddleRight,
    BottomLeft,
    BottomCenter,
    BottomRight,
}

impl Default for TextAttachment {
    fn default() -> (p: TextAttachment)
        ensures
            p == TextAttachment::TopLeft,
    {
        TextAttachment::TopLeft
    }
}

/// How the lines of a text are aligned.
#[derive(Debug, Clone, Copy, PartialEq, Eq, Structural)]
pub enum Alignment {
    /// To where the script starts its lines.
    Start,
    Left,
    Middle,
    Right,
}

/// The number that the file format gives to an attachment point.
pub uninterp spec fn attachment_code(p: dxf::enums::AttachmentPoint) -> i16;

/// The cast of a `dxf::enums::AttachmentPoint` to its discriminant.
///
/// Trusted: the nine points have the discriminants 1 to 9.
#[verifier::external_body]
fn attachment_number(p: dxf::enums::AttachmentPoint) -> (r: i16)
    ensures
        r == attachment_code(p),
        1 <= r <= 9,
{
    p as i16
}

/// The attachment point with number `code`, which runs along the lines from the top.
pub open spec fn attachment_of(code: i16) -> TextAttachment {
    if code == 1 {
        TextAttachment::TopLeft
    } else if code == 2 {
        TextAttachment::TopCenter
    } else if code == 3 {
        TextAttachment::TopRight
    } else if code == 4 {
        TextAttachment::MiddleLeft
    } else if code == 5 {
        TextAttachment::MiddleCenter
    } else if code == 6 {
        TextAttachment::MiddleRight
    } else if code == 7 {
        TextAttachment::BottomLeft
    } else if code == 8 {
        TextAttachment::BottomCenter
    } else {
        TextAttachment::BottomRight
    }
}

/// The attachment point with a number from 1 to 9.
pub fn attachment_from_number(code: i16) -> (p: TextAttachment)
    requires
        1 <= code <= 9,
    ensures
        p == attachment_of(code),
{
    match code {
        1 => TextAttachment::TopLeft,
        2 => TextAttachment::TopCenter,
        3 => TextAttachment::TopRight,
        4 => TextAttachment::MiddleLeft,
        5 => TextAttachment::MiddleCenter,
        6 => TextAttachment::MiddleRight,
        7 => TextAttachment::BottomLeft,
        8 => TextAttachment::BottomCenter,
        _ => TextAttachment::BottomRight,
    }
}

/// Convert a [`dxf::enums::AttachmentPoint`] to an [`TextAttachment`].
pub fn dxf_attachment_point_to_tabulon(p: dxf::enums::AttachmentPoint) -> (r: TextAttachment)
    ensures
        r == attachment_of(attachment_code(p)),
{
    attachment_from_number(attachment_number(p))
}

/// The alignment that goes with an attachment point: its column decides.
pub open spec fn alignment_of(p: TextAttachment) -> Alignment {
    match p {
        TextAttachment::TopLeft
        | TextAttachment::MiddleLeft
        | TextAttachment::BottomLeft => Alignment::Left,
        TextAttachment::TopCenter
        | TextAttachment::MiddleCenter
        | TextAttachment::BottomCenter => Alignment::Middle,
        TextAttachment::TopRight
        | TextAttachment::MiddleRight
        | TextAttachment::BottomRight => Alignment::Right,
    }
}

/// The alignment that goes with an attachment point.
pub fn alignment_for(p: TextAttachment) -> (a: Alignment)
    ensures
        a == alignment_of(p),
{
    match p {
        TextAttachment::TopLeft
        | TextAttachment::MiddleLeft
        | TextAttachment::BottomLeft => Alignment::Left,
        TextAttachment::TopCenter
        | TextAttachment::MiddleCenter
        | TextAttachment::BottomCenter => Alignment::Middle,
        TextAttachment::TopRight
        | TextAttachment::MiddleRight
        | TextAttachment::BottomRight => Alignment::Right,
    }
}

/// Whether a number differs from zero; a NaN does.
pub open spec fn differs_from_zero(r: Real) -> bool {
    !r.equals(Real { place: POSITIVE_ZERO })
}

/// The width to break the lines of an `MTEXT` at: that of its rectangle without
/// columns, that of a column with static ones, if it is set. Centered text is never
/// broken.
pub open spec fn inline_size(mt: MText, alignment: Alignment) -> Option<Real> {
    if alignment == Alignment::Middle {
        None
    } else if mt.column_type == 0 && differs_from_zero(mt.reference_rectangle_width) {
        Some(mt.reference_rectangle_width)
    } else if mt.column_type == 1 && differs_from_zero(mt.column_width) {
        Some(mt.column_width)
    } else {
        None
    }
}

/// The width to break the lines of an `MTEXT` at.
pub fn max_inline_size(mt: &MText, alignment: Alignment) -> (size: Option<Real>)
    ensures
        size == inline_size(*mt, alignment),
{
    match alignment {
        Alignment::Middle => None,
        _ => {
            if mt.column_type == 0 && !mt.reference_rectangle_width.is_zero() {
                Some(mt.reference_rectangle_width)
            } else if mt.column_type == 1 && !mt.column_width.is_zero() {
                Some(mt.column_width)
            } else {
                None
            }
        },
    }
}

/// Whether `name` is a font file, with or without the extension that goes with it.
pub open spec fn names_font(name: Seq<char>, bare: Seq<char>, file: Seq<char>) -> bool {
    name == bare || name == file
}

fn is_font(name: &String, bare: &str, file: &str) -> (r: bool)
    ensures
        r == names_font(name@, bare@, file@),
{
    *name == bare.to_owned() || *name == file.to_owned()
}

/// The style that the text style `s` of a file stands for.
///
/// The shape files that are common in drawings are mapped to similar fonts. What a
/// font brings of its own overrides the width and the slant of the style.
pub open spec fn table_style(s: Style) -> TextStyle {
    let base = TextStyle {
        size: s.text_height,
        solid_lines: true,
        width: Some(FontWidth::Ratio(s.width_factor)),
        slant: if differs_from_zero(s.oblique_angle) {
            Some(FontSlant::Oblique(s.oblique_angle))
        } else {
            None
        },
        weight: None,
        family: Some(FontFamily::SansSerif),
    };
    let name = s.primary_font_file_name@;
    if names_font(name, "monotxt"@, "monotxt.shx"@) {
        TextStyle { family: Some(FontFamily::Monospace), ..base }
    } else if names_font(name, "italic"@, "italic.shx"@) {
        TextStyle { family: Some(FontFamily::Serif), slant: Some(FontSlant::Italic), ..base }
    } else if names_font(name, "romans"@, "romans.shx"@) {
        TextStyle { family: Some(FontFamily::Serif), ..base }
    } else if names_font(name, "romanc"@, "romanc.shx"@) {
        TextStyle { family: Some(FontFamily::Serif), width: Some(FontWidth::Condensed), ..base }
    } else if names_font(name, "romand"@, "romand.shx"@) {
        TextStyle { family: Some(FontFamily::Serif), weight: Some(FontWeight::Bold), ..base }
    } else if names_font(name, "romant"@, "romant.shx"@) {
        TextStyle { family: Some(FontFamily::Serif), weight: Some(FontWeight::ExtraBold), ..base }
    } else if names_font(name, "script"@, "script.shx"@) {
        TextStyle { family: Some(FontFamily::Cursive), ..base }
    } else {
        base
    }
}

/// Translate a text style of a file.
pub fn style_from_table(s: &Style) -> (style: TextStyle)
    ensures
        style == table_style(*s),
{
    let mut style: TextStyle = TextStyle {
        size: s.text_height,
        solid_lines: true,
        width: Some(FontWidth::Ratio(s.width_factor)),
        slant: None,
        weight: None,
        family: Some(FontFamily::SansSerif),
    };
    if !s.oblique_angle.is_zero() {
        style.slant = Some(FontSlant::Oblique(s.oblique_angle));
    }
    let name: &String = &s.primary_font_file_name;
    if is_font(name, "monotxt", "monotxt.shx") {
        style.family = Some(FontFamily::Monospace);
    } else if is_font(name, "italic", "italic.shx") {
        // Italic roman type lined once.
        style.family = Some(FontFamily::Serif);
        style.slant = Some(FontSlant::Italic);
    } else if is_font(name, "romans", "romans.shx") {
        // Roman (serif) type lined once.
        style.family = Some(FontFamily::Serif);
    } else if is_font(name, "romanc", "romanc.shx") {
        // Condensed Roman type lined once.
        style.family = Some(FontFamily::Serif);
        style.width = Some(FontWidth::Condensed);
    } else if is_font(name, "romand", "romand.shx") {
        // Roman type lined twice, seems like bold.
        style.family = Some(FontFamily::Serif);
        style.weight = Some(FontWeight::Bold);
    } else if is_font(name, "romant", "romant.shx") {
        // Roman type lined thrice, seems like bolder.
        style.family = Some(FontFamily::Serif);
        style.weight = Some(FontWeight::ExtraBold);
    } else if is_font(name, "script", "script.shx") {
        style.family = Some(FontFamily::Cursive);
    }
    style
}

/// Check if the font size of a style is zero.
///
/// Sizes reach the renderer in single precision, so what rounds to zero there is zero.
pub fn style_size_is_zero(s: &TextStyle) -> (r: bool)
    ensures
        r == s.size.rounds_to_zero(),
{
    s.size.is_zero_in_single()
}

/// The last of the first `n` styles with this name.
pub open spec fn last_style(styles: Seq<Style>, name: Seq<char>, n: int) -> Option<int>
    decreases n,
{
    if n <= 0 {
        None
    } else if styles[n - 1].name@ == name {
        Some(n - 1)
    } else {
        last_style(styles, name, n - 1)
    }
}

/// The style that goes by a name, if any. Of several, the last counts.
pub open spec fn style_named(styles: Seq<Style>, name: Seq<char>) -> Option<TextStyle> {
    match last_style(styles, name, styles.len() as int) {
        Some(i) => Some(table_style(styles[i])),
        None => None,
    }
}

fn find_style(styles: &Vec<Style>, name: &String) -> (style: Option<TextStyle>)
    ensures
        style == style_named(styles@, name@),
{
    let mut i: usize = styles.len();
    while i > 0
        invariant
            i <= styles@.len(),
            last_style(styles@, name@, styles@.len() as int) == last_style(
                styles@,
                name@,
                i as int,
            ),
        decreases i,
    {
        if styles[i - 1].name == *name {
            return Some(style_from_table(&styles[i - 1]));
        }
        i = i - 1;
    }
    None
}

/// A style that says nothing but the size.
pub open spec fn bare_style(size: Real) -> TextStyle {
    TextStyle { size, solid_lines: false, width: None, slant: None, weight: None, family: None }
}

/// A style with the size that an entity asks for, where it leaves the size open.
pub open spec fn sized(style: TextStyle, size: Real) -> TextStyle {
    if style.size.rounds_to_zero() {
        TextStyle { size, ..style }
    } else {
        style
    }
}

/// How an `MTEXT` is set: by its style, with the height of the entity only where the
/// style has none; without a style, by its height alone.
pub open spec fn mtext_style_spec(styles: Seq<Style>, mt: MText) -> TextStyle {
    match style_named(styles, mt.text_style_name@) {
        Some(style) => sized(style, mt.initial_text_height),
        None => bare_style(mt.initial_text_height),
    }
}

/// How a `TEXT` is set: as an `MTEXT` is, but the slant of the entity overrides that
/// of its style.
pub open spec fn text_style_spec(styles: Seq<Style>, t: Text) -> TextStyle {
    match style_named(styles, t.text_style_name@) {
        Some(style) => if differs_from_zero(t.oblique_angle) {
            TextStyle {
                slant: Some(FontSlant::Oblique(t.oblique_angle)),
                ..sized(style, t.text_height)
            }
        } else {
            sized(style, t.text_height)
        },
        None => bare_style(t.text_height),
    }
}

fn with_size(style: TextStyle, size: Real) -> (r: TextStyle)
    ensures
        r == sized(style, size),
{
    if style_size_is_zero(&style) {
        let mut resized: TextStyle = style;
        resized.size = size;
        resized
    } else {
        style
    }
}

fn bare(size: Real) -> (r: TextStyle)
    ensures
        r == bare_style(size),
{
    TextStyle { size, solid_lines: false, width: None, slant: None, weight: None, family: None }
}

/// How an `MTEXT` is set.
pub fn mtext_style(styles: &Vec<Style>, mt: &MText) -> (style: TextStyle)
    ensures
        style == mtext_style_spec(styles@, *mt),
{
    match find_style(styles, &mt.text_style_name) {
        Some(style) => with_size(style, mt.initial_text_height),
        None => bare(mt.initial_text_height),
    }
}

/// How a `TEXT` is set.
pub fn text_style(styles: &Vec<Style>, t: &Text) -> (style: TextStyle)
    ensures
        style == text_style_spec(styles@, *t),
{
    match find_style(styles, &t.text_style_name) {
        Some(style) => {
            let mut set: TextStyle = with_size(style, t.text_height);
            if !t.oblique_angle.is_zero() {
                set.slant = Some(FontSlant::Oblique(t.oblique_angle));
            }
            set
        },
        None => bare(t.text_height),
    }
}

/// A style with a size keeps it, whatever height the entity asks for; without one, the
/// height of the entity is the size.
pub proof fn law_height_only_fills_in(styles: Seq<Style>, mt: MText, t: Text)
    ensures
        ({
            let named = style_named(styles, mt.text_style_name@);
            let set = mtext_style_spec(styles, mt);
            &&& named is Some && !named->0.size.rounds_to_zero() ==> set == named->0
            &&& named is None || named->0.size.rounds_to_zero() ==> set.size
                == mt.initial_text_height
        }),
        ({
            let named = style_named(styles, t.text_style_name@);
            let set = text_style_spec(styles, t);
            &&& named is Some && !named->0.size.rounds_to_zero() ==> set.size == named->0.size
            &&& named is None || named->0.size.rounds_to_zero() ==> set.size == t.text_height
        }),
{
}

} // verus!
