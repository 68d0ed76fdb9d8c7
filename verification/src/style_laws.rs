//! What a text keeps of its style.

use vstd::prelude::*;

#[allow(unused_imports)]
use crate::dxf_file::{MText, Style, Text};
#[allow(unused_imports)]
use crate::number::{Real, NEGATIVE_ZERO, POSITIVE_ZERO};
#[allow(unused_imports)]
use crate::scene::attachment_halves;
#[allow(unused_imports)]
use crate::text_style::{
    alignment_of, attachment_of, inline_size, last_style, mtext_style_spec, table_style,
    text_style_spec, Alignment, FontFamily, FontSlant, FontWeight, FontWidth, TextAttachment,
    TextStyle,
};

verus! {

/// Whether the style at index `i` is the one that goes by `name`: no later one does.
pub open spec fn goes_by(styles: Seq<Style>, i: int, name: Seq<char>) -> bool {
    &&& 0 <= i < styles.len()
    &&& styles[i].name@ == name
    &&& forall|j: int| i < j < styles.len() ==> (#[trigger] styles[j]).name@ != name
}

/// Whether no style goes by `name`.
pub open spec fn goes_by_none(styles: Seq<Style>, name: Seq<char>) -> bool {
    forall|j: int| 0 <= j < styles.len() ==> (#[trigger] styles[j]).name@ != name
}

proof fn lemma_last_style(styles: Seq<Style>, name: Seq<char>, i: int, n: int)
    requires
        goes_by(styles, i, name),
        i < n <= styles.len(),
    ensures
        last_style(styles, name, n) == Some(i),
    decreases n,
{
    if n - 1 > i {
        assert(styles[n - 1].name@ != name);
        lemma_last_style(styles, name, i, n - 1);
    }
}

proof fn lemma_no_style(styles: Seq<Style>, name: Seq<char>, n: int)
    requires
        goes_by_none(styles, name),
        n <= styles.len(),
    ensures
        last_style(styles, name, n) is None,
    decreases n,
{
    if n > 0 {
        assert(styles[n - 1].name@ != name);
        lemma_no_style(styles, name, n - 1);
    }
}

/// A text with a style takes everything but size and slant from it, whatever the
/// height of the text is and whether or not the style has a size.
///
/// Lines are then exactly as high as the size.
pub proof fn law_texts_keep_their_style(styles: Seq<Style>, i: int, mt: MText, t: Text)
    requires
        0 <= i < styles.len(),
    ensures
        goes_by(styles, i, mt.text_style_name@) ==> {
            let style = table_style(styles[i]);
            let set = mtext_style_spec(styles, mt);
            &&& set.family == style.family
            &&& set.width == style.width
            &&& set.weight == style.weight
            &&& set.slant == style.slant
            &&& set.solid_lines
            &&& set.family is Some
            &&& set.width is Some
        },
        goes_by(styles, i, t.text_style_name@) ==> {
            let style = table_style(styles[i]);
            let set = text_style_spec(styles, t);
            &&& set.family == style.family
            &&& set.width == style.width
            &&& set.weight == style.weight
            &&& set.solid_lines
            &&& set.family is Some
            &&& set.width is Some
        },
{
    if goes_by(styles, i, mt.text_style_name@) {
        lemma_last_style(styles, mt.text_style_name@, i, styles.len() as int);
    }
    if goes_by(styles, i, t.text_style_name@) {
        lemma_last_style(styles, t.text_style_name@, i, styles.len() as int);
    }
}

/// The size of a text is the height of its style if that has one, else its own height.
pub proof fn law_texts_take_one_height(styles: Seq<Style>, i: int, mt: MText, t: Text)
    requires
        0 <= i < styles.len(),
    ensures
        goes_by(styles, i, mt.text_style_name@) ==> mtext_style_spec(styles, mt).size == if (
        styles[i].text_height.rounds_to_zero()) {
            mt.initial_text_height
        } else {
            styles[i].text_height
        },
        goes_by(styles, i, t.text_style_name@) ==> text_style_spec(styles, t).size == if (
        styles[i].text_height.rounds_to_zero()) {
            t.text_height
        } else {
            styles[i].text_height
        },
{
    if goes_by(styles, i, mt.text_style_name@) {
        lemma_last_style(styles, mt.text_style_name@, i, styles.len() as int);
    }
    if goes_by(styles, i, t.text_style_name@) {
        lemma_last_style(styles, t.text_style_name@, i, styles.len() as int);
    }
}

/// A `TEXT` that brings a slant of its own has that slant, and else the one of its
/// style.
pub proof fn law_texts_may_slant(styles: Seq<Style>, i: int, t: Text)
    requires
        goes_by(styles, i, t.text_style_name@),
    ensures
        t.oblique_angle.place != POSITIVE_ZERO && t.oblique_angle.place != NEGATIVE_ZERO
            ==> text_style_spec(styles, t).slant == Some(FontSlant::Oblique(t.oblique_angle)),
        t.oblique_angle.place == POSITIVE_ZERO || t.oblique_angle.place == NEGATIVE_ZERO
            ==> text_style_spec(styles, t).slant == table_style(styles[i]).slant,
{
    lemma_last_style(styles, t.text_style_name@, i, styles.len() as int);
}

/// Two texts with one style differ at most in size and, where a `TEXT` brings one, in
/// slant; so do an `MTEXT` and a `TEXT`.
pub proof fn law_heights_change_sizes_only(
    styles: Seq<Style>,
    i: int,
    mt: MText,
    other: MText,
    t: Text,
)
    requires
        goes_by(styles, i, mt.text_style_name@),
        other.text_style_name@ == mt.text_style_name@,
        t.text_style_name@ == mt.text_style_name@,
    ensures
        mtext_style_spec(styles, other) == (TextStyle {
            size: mtext_style_spec(styles, other).size,
            ..mtext_style_spec(styles, mt)
        }),
        text_style_spec(styles, t) == (TextStyle {
            size: text_style_spec(styles, t).size,
            slant: text_style_spec(styles, t).slant,
            ..mtext_style_spec(styles, mt)
        }),
        mt.initial_text_height == t.text_height ==> text_style_spec(styles, t).size
            == mtext_style_spec(styles, mt).size,
{
    lemma_last_style(styles, mt.text_style_name@, i, styles.len() as int);
}

/// A text without a style has its own height, and nothing else is said of it.
pub proof fn law_texts_may_have_no_style(styles: Seq<Style>, mt: MText, t: Text)
    ensures
        goes_by_none(styles, mt.text_style_name@) ==> {
            let set = mtext_style_spec(styles, mt);
            &&& set.size == mt.initial_text_height
            &&& !set.solid_lines
            &&& set.width is None
            &&& set.slant is None
            &&& set.weight is None
            &&& set.family is None
        },
        goes_by_none(styles, t.text_style_name@) ==> {
            let set = text_style_spec(styles, t);
            &&& set.size == t.text_height
            &&& !set.solid_lines
            &&& set.width is None
            &&& set.slant is None
            &&& set.weight is None
            &&& set.family is None
        },
{
    if goes_by_none(styles, mt.text_style_name@) {
        lemma_no_style(styles, mt.text_style_name@, styles.len() as int);
    }
    if goes_by_none(styles, t.text_style_name@) {
        lemma_no_style(styles, t.text_style_name@, styles.len() as int);
    }
}

/// The names of the fonts that are mapped, as sequences of characters.
proof fn lemma_font_names()
    ensures
        "monotxt"@ == seq!['m', 'o', 'n', 'o', 't', 'x', 't'],
        "italic"@ == seq!['i', 't', 'a', 'l', 'i', 'c'],
        "romans"@ == seq!['r', 'o', 'm', 'a', 'n', 's'],
        "romanc"@ == seq!['r', 'o', 'm', 'a', 'n', 'c'],
        "romand"@ == seq!['r', 'o', 'm', 'a', 'n', 'd'],
        "romant"@ == seq!['r', 'o', 'm', 'a', 'n', 't'],
        "script"@ == seq!['s', 'c', 'r', 'i', 'p', 't'],
        "monotxt.shx"@ == seq!['m', 'o', 'n', 'o', 't', 'x', 't', '.', 's', 'h', 'x'],
        "italic.shx"@ == seq!['i', 't', 'a', 'l', 'i', 'c', '.', 's', 'h', 'x'],
        "romans.shx"@ == seq!['r', 'o', 'm', 'a', 'n', 's', '.', 's', 'h', 'x'],
        "romanc.shx"@ == seq!['r', 'o', 'm', 'a', 'n', 'c', '.', 's', 'h', 'x'],
        "romand.shx"@ == seq!['r', 'o', 'm', 'a', 'n', 'd', '.', 's', 'h', 'x'],
        "romant.shx"@ == seq!['r', 'o', 'm', 'a', 'n', 't', '.', 's', 'h', 'x'],
        "script.shx"@ == seq!['s', 'c', 'r', 'i', 'p', 't', '.', 's', 'h', 'x'],
{
    reveal_strlit("monotxt");
    reveal_strlit("italic");
    reveal_strlit("romans");
    reveal_strlit("romanc");
    reveal_strlit("romand");
    reveal_strlit("romant");
    reveal_strlit("script");
    reveal_strlit("monotxt.shx");
    reveal_strlit("italic.shx");
    reveal_strlit("romans.shx");
    reveal_strlit("romanc.shx");
    reveal_strlit("romand.shx");
    reveal_strlit("romant.shx");
    reveal_strlit("script.shx");
}

/// Whether a style names the font file `font`, with or without its extension.
pub open spec fn sets_in(s: Style, font: Seq<char>) -> bool {
    ||| s.primary_font_file_name@ == font
    ||| s.primary_font_file_name@ == font + seq!['.', 's', 'h', 'x']
}

/// The font that a style names decides its family: the monospaced, the roman and the
/// script fonts have theirs, every other font is taken for one without serifs.
pub proof fn law_fonts_decide_families(s: Style)
    ensures
        sets_in(s, "monotxt"@) <==> table_style(s).family == Some(FontFamily::Monospace),
        sets_in(s, "script"@) <==> table_style(s).family == Some(FontFamily::Cursive),
        (sets_in(s, "italic"@) || sets_in(s, "romans"@) || sets_in(s, "romanc"@) || sets_in(
            s,
            "romand"@,
        ) || sets_in(s, "romant"@)) <==> table_style(s).family == Some(FontFamily::Serif),
        table_style(s).family is Some,
{
    lemma_font_files();
    lemma_fonts_differ();
}

/// The extension stands behind the names.
proof fn lemma_font_files()
    ensures
        "monotxt"@ + seq!['.', 's', 'h', 'x'] == "monotxt.shx"@,
        "italic"@ + seq!['.', 's', 'h', 'x'] == "italic.shx"@,
        "romans"@ + seq!['.', 's', 'h', 'x'] == "romans.shx"@,
        "romanc"@ + seq!['.', 's', 'h', 'x'] == "romanc.shx"@,
        "romand"@ + seq!['.', 's', 'h', 'x'] == "romand.shx"@,
        "romant"@ + seq!['.', 's', 'h', 'x'] == "romant.shx"@,
        "script"@ + seq!['.', 's', 'h', 'x'] == "script.shx"@,
{
    lemma_font_names();
    assert("monotxt"@ + seq!['.', 's', 'h', 'x'] =~= "monotxt.shx"@);
    assert("italic"@ + seq!['.', 's', 'h', 'x'] =~= "italic.shx"@);
    assert("romans"@ + seq!['.', 's', 'h', 'x'] =~= "romans.shx"@);
    assert("romanc"@ + seq!['.', 's', 'h', 'x'] =~= "romanc.shx"@);
    assert("romand"@ + seq!['.', 's', 'h', 'x'] =~= "romand.shx"@);
    assert("romant"@ + seq!['.', 's', 'h', 'x'] =~= "romant.shx"@);
    assert("script"@ + seq!['.', 's', 'h', 'x'] =~= "script.shx"@);
}

/// What tells the fonts apart: the length of their names, the first characters, and
/// the sixth.
proof fn lemma_fonts_differ()
    ensures
        "monotxt"@.len() == 7 && "monotxt"@[0] == 'm',
        "monotxt.shx"@.len() == 11 && "monotxt.shx"@[0] == 'm',
        "italic"@.len() == 6 && "italic"@[0] == 'i' && "italic"@[5] == 'c',
        "italic.shx"@.len() == 10 && "italic.shx"@[0] == 'i' && "italic.shx"@[5] == 'c',
        "romans"@.len() == 6 && "romans"@[0] == 'r' && "romans"@[5] == 's',
        "romans.shx"@.len() == 10 && "romans.shx"@[0] == 'r' && "romans.shx"@[5] == 's',
        "romanc"@.len() == 6 && "romanc"@[0] == 'r' && "romanc"@[5] == 'c',
        "romanc.shx"@.len() == 10 && "romanc.shx"@[0] == 'r' && "romanc.shx"@[5] == 'c',
        "romand"@.len() == 6 && "romand"@[0] == 'r' && "romand"@[5] == 'd',
        "romand.shx"@.len() == 10 && "romand.shx"@[0] == 'r' && "romand.shx"@[5] == 'd',
        "romant"@.len() == 6 && "romant"@[0] == 'r' && "romant"@[5] == 't',
        "romant.shx"@.len() == 10 && "romant.shx"@[0] == 'r' && "romant.shx"@[5] == 't',
        "script"@.len() == 6 && "script"@[0] == 's' && "script"@[5] == 't',
        "script.shx"@.len() == 10 && "script.shx"@[0] == 's' && "script.shx"@[5] == 't',
{
    lemma_font_names();
}

/// The size of a style is its height; its width is the factor that the file gives,
/// but for the condensed font; its slant is the angle that the file gives unless that
/// is zero, but for the italic font; it is bold only in the two fonts drawn with
/// several lines.
pub proof fn law_styles_follow_the_file(s: Style)
    ensures
        table_style(s).size == s.text_height,
        table_style(s).solid_lines,
        table_style(s).width == if sets_in(s, "romanc"@) {
            Some(FontWidth::Condensed)
        } else {
            Some(FontWidth::Ratio(s.width_factor))
        },
        table_style(s).slant == if sets_in(s, "italic"@) {
            Some(FontSlant::Italic)
        } else if s.oblique_angle.place == POSITIVE_ZERO || s.oblique_angle.place
            == NEGATIVE_ZERO {
            None
        } else {
            Some(FontSlant::Oblique(s.oblique_angle))
        },
        table_style(s).weight == if sets_in(s, "romand"@) {
            Some(FontWeight::Bold)
        } else if sets_in(s, "romant"@) {
            Some(FontWeight::ExtraBold)
        } else {
            None
        },
{
    lemma_font_files();
    lemma_fonts_differ();
}

/// The numbers of the attachment points run along the lines, from the top: each three
/// have a row, each third a column.
pub proof fn law_attachment_numbers_run_along_lines(code: i16)
    requires
        1 <= code <= 9,
    ensures
        attachment_halves(attachment_of(code)).0 == (code - 1) % 3,
        attachment_halves(attachment_of(code)).1 == (code - 1) / 3,
        alignment_of(attachment_of(code)) == if (code - 1) % 3 == 0 {
            Alignment::Left
        } else if (code - 1) % 3 == 1 {
            Alignment::Middle
        } else {
            Alignment::Right
        },
{
}

/// Lines are broken at a width only where text is not centered, and the width is that
/// of the rectangle or of a column, as the kind of columns says; one of zero is none.
pub proof fn law_lines_break_at_a_set_width(mt: MText, alignment: Alignment)
    ensures
        alignment == Alignment::Middle ==> inline_size(mt, alignment) is None,
        mt.column_type != 0 && mt.column_type != 1 ==> inline_size(mt, alignment) is None,
        alignment != Alignment::Middle && mt.column_type == 0 ==> inline_size(mt, alignment)
            == if mt.reference_rectangle_width.place == POSITIVE_ZERO
            || mt.reference_rectangle_width.place == NEGATIVE_ZERO {
            None
        } else {
            Some(mt.reference_rectangle_width)
        },
        alignment != Alignment::Middle && mt.column_type == 1 ==> inline_size(mt, alignment)
            == if mt.column_width.place == POSITIVE_ZERO || mt.column_width.place
            == NEGATIVE_ZERO {
            None
        } else {
            Some(mt.column_width)
        },
{
}

} // verus!
