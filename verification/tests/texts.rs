//! Texts, and how they are set.

use dxf::enums::AttachmentPoint;
use tabulon::dxf_file::{DxfPoint, MText, Style, Text};
use tabulon::number::Real;
use tabulon::scene::{halves_of_attachment, layout_width};
use tabulon::text::{replace_all, translate_mtext, translate_text};
use tabulon::text_style::{
    alignment_for, attachment_from_number, dxf_attachment_point_to_tabulon, max_inline_size,
    mtext_style, style_from_table, style_size_is_zero, text_style, Alignment, FontFamily,
    FontSlant, FontWeight, FontWidth, TextAttachment, TextStyle,
};

fn num(x: f64) -> Real {
    Real::from_bits(x.to_bits())
}

fn origin() -> DxfPoint {
    DxfPoint { x: num(0.0), y: num(0.0), z: num(1.0) }
}

fn mtext() -> MText {
    MText {
        insertion_point: origin(),
        initial_text_height: num(2.5),
        reference_rectangle_width: num(100.0),
        attachment_point: AttachmentPoint::TopLeft,
        text: String::from("text"),
        extended_text: vec![],
        text_style_name: String::from("standard"),
        extrusion_direction: origin(),
        x_axis_direction: origin(),
        rotation_angle: num(0.0),
        column_type: 0,
        column_width: num(40.0),
    }
}

fn text() -> Text {
    Text {
        location: origin(),
        text_height: num(3.5),
        value: String::from("text"),
        rotation: num(0.0),
        oblique_angle: num(0.0),
        text_style_name: String::from("standard"),
        normal: origin(),
    }
}

fn style(name: &str, height: f64, font: &str) -> Style {
    Style {
        name: String::from(name),
        text_height: num(height),
        width_factor: num(0.75),
        oblique_angle: num(0.0),
        primary_font_file_name: String::from(font),
    }
}

#[test]
fn replacing_goes_from_left_to_right() {
    assert_eq!(replace_all("aaaa", "aa", "b"), "aaaa".replace("aa", "b"));
    assert_eq!(replace_all("aaa", "aa", "b"), "ba");
    assert_eq!(replace_all("one two one", "one", "three"), "three two three");
    assert_eq!(replace_all("none", "x", "y"), "none");
    assert_eq!(replace_all("", "x", "y"), "");
    assert_eq!(replace_all("∅∅", "∅", "°"), "°°");
}

#[test]
fn symbols_are_translated() {
    assert_eq!(translate_text("%%c10 %%d %%p %%C %%D %%P"), "∅10 ° ± ∅ ° ±");
    assert_eq!(translate_text("50%%%"), "50%");
    assert_eq!(translate_text("%%uunder%%u %%oover%%o"), "under over");
}

#[test]
fn translation_steps_build_on_one_another() {
    // What one replacement leaves behind is seen by the next.
    assert_eq!(translate_text("%%%%c"), "%%∅");
    assert_eq!(translate_text("%%%%%u"), "%");
    assert_eq!(translate_text("%%%%u"), "");
    assert_eq!(translate_mtext(&String::from("\\\\LA1;x"), &vec![]), "x");
}

#[test]
fn plain_text_is_kept() {
    for plain in ["", "plain", "100 % of it", "a\nb", "Höhe"] {
        assert_eq!(translate_text(plain), plain);
        assert_eq!(translate_mtext(&String::from(plain), &vec![]), plain);
    }
}

#[test]
fn formatting_codes_are_dropped() {
    let coded = String::from("\\A1;\\Lunder\\l \\Oover\\o \\Sthrough\\s\\Pnext\\A0;");
    assert_eq!(translate_mtext(&coded, &vec![]), "under over through\nnext");
}

#[test]
fn long_texts_are_joined_first() {
    let extended = vec![String::from("%c"), String::from(" end")];
    assert_eq!(translate_mtext(&String::from("start %"), &extended), "start ∅ end");
}

#[test]
fn attachment_points_are_told_apart() {
    let pairs = [
        (AttachmentPoint::TopLeft, TextAttachment::TopLeft, Alignment::Left, (0, 0)),
        (AttachmentPoint::TopCenter, TextAttachment::TopCenter, Alignment::Middle, (1, 0)),
        (AttachmentPoint::TopRight, TextAttachment::TopRight, Alignment::Right, (2, 0)),
        (AttachmentPoint::MiddleLeft, TextAttachment::MiddleLeft, Alignment::Left, (0, 1)),
        (AttachmentPoint::MiddleCenter, TextAttachment::MiddleCenter, Alignment::Middle, (1, 1)),
        (AttachmentPoint::MiddleRight, TextAttachment::MiddleRight, Alignment::Right, (2, 1)),
        (AttachmentPoint::BottomLeft, TextAttachment::BottomLeft, Alignment::Left, (0, 2)),
        (AttachmentPoint::BottomCenter, TextAttachment::BottomCenter, Alignment::Middle, (1, 2)),
        (AttachmentPoint::BottomRight, TextAttachment::BottomRight, Alignment::Right, (2, 2)),
    ];
    for (i, (from, to, alignment, halves)) in pairs.into_iter().enumerate() {
        assert_eq!(dxf_attachment_point_to_tabulon(from), to);
        assert_eq!(attachment_from_number(i as i16 + 1), to);
        assert_eq!(alignment_for(to), alignment);
        assert_eq!(halves_of_attachment(to), halves);
    }
    assert_eq!(TextAttachment::default(), TextAttachment::TopLeft);
}

#[test]
fn lines_break_at_the_rectangle_or_column() {
    let mut mt = mtext();
    assert_eq!(max_inline_size(&mt, Alignment::Left), Some(num(100.0)));
    assert_eq!(max_inline_size(&mt, Alignment::Right), Some(num(100.0)));
    assert_eq!(max_inline_size(&mt, Alignment::Middle), None);
    mt.reference_rectangle_width = num(0.0);
    assert_eq!(max_inline_size(&mt, Alignment::Left), None);
    mt.column_type = 1;
    assert_eq!(max_inline_size(&mt, Alignment::Left), Some(num(40.0)));
    mt.column_width = num(-0.0);
    assert_eq!(max_inline_size(&mt, Alignment::Left), None);
    mt.column_type = 2;
    mt.column_width = num(40.0);
    assert_eq!(max_inline_size(&mt, Alignment::Left), None);
}

#[test]
fn widths_of_broken_lines_are_given() {
    assert_eq!(layout_width(Some(num(100.0)), num(30.0)), num(100.0));
    assert_eq!(layout_width(None, num(30.0)), num(30.0));
}

#[test]
fn fonts_are_mapped() {
    let plain = TextStyle {
        size: num(4.0),
        solid_lines: true,
        width: Some(FontWidth::Ratio(num(0.75))),
        slant: None,
        weight: None,
        family: Some(FontFamily::SansSerif),
    };
    let of = |font: &str| style_from_table(&style("s", 4.0, font));
    assert_eq!(of("txt"), plain);
    assert_eq!(of("Romans"), plain);
    for (bare, file) in [
        ("monotxt", "monotxt.shx"),
        ("italic", "italic.shx"),
        ("romans", "romans.shx"),
        ("romanc", "romanc.shx"),
        ("romand", "romand.shx"),
        ("romant", "romant.shx"),
        ("script", "script.shx"),
    ] {
        assert_eq!(of(bare), of(file));
    }
    let serif = TextStyle { family: Some(FontFamily::Serif), ..plain };
    assert_eq!(of("monotxt"), TextStyle { family: Some(FontFamily::Monospace), ..plain });
    assert_eq!(of("italic"), TextStyle { slant: Some(FontSlant::Italic), ..serif });
    assert_eq!(of("romans"), serif);
    assert_eq!(of("romanc"), TextStyle { width: Some(FontWidth::Condensed), ..serif });
    assert_eq!(of("romand"), TextStyle { weight: Some(FontWeight::Bold), ..serif });
    assert_eq!(of("romant"), TextStyle { weight: Some(FontWeight::ExtraBold), ..serif });
    assert_eq!(of("script"), TextStyle { family: Some(FontFamily::Cursive), ..plain });
}

#[test]
fn slanted_styles_are_oblique() {
    let mut s = style("s", 4.0, "txt");
    s.oblique_angle = num(15.0);
    assert_eq!(style_from_table(&s).slant, Some(FontSlant::Oblique(num(15.0))));
    s.primary_font_file_name = String::from("italic");
    assert_eq!(style_from_table(&s).slant, Some(FontSlant::Italic));
}

#[test]
fn sizes_that_vanish_are_zero() {
    assert!(style_size_is_zero(&style_from_table(&style("s", 0.0, "txt"))));
    assert!(style_size_is_zero(&style_from_table(&style("s", 1e-60, "txt"))));
    assert!(!style_size_is_zero(&style_from_table(&style("s", 0.1, "txt"))));
}

#[test]
fn heights_fill_in_for_sizes() {
    let open = vec![style("standard", 0.0, "txt")];
    let sized = vec![style("standard", 9.0, "txt")];
    assert_eq!(mtext_style(&open, &mtext()).size, num(2.5));
    assert_eq!(mtext_style(&sized, &mtext()).size, num(9.0));
    assert_eq!(text_style(&open, &text()).size, num(3.5));
    assert_eq!(text_style(&sized, &text()).size, num(9.0));
}

#[test]
fn without_a_style_only_the_height_is_known() {
    let bare = TextStyle {
        size: num(2.5),
        solid_lines: false,
        width: None,
        slant: None,
        weight: None,
        family: None,
    };
    assert_eq!(mtext_style(&vec![], &mtext()), bare);
    let other = vec![style("other", 9.0, "txt")];
    assert_eq!(mtext_style(&other, &mtext()), bare);
    assert_eq!(text_style(&other, &text()), TextStyle { size: num(3.5), ..bare });
}

#[test]
fn the_last_style_of_a_name_counts() {
    let styles = vec![
        style("standard", 1.0, "txt"),
        style("standard", 2.0, "monotxt"),
        style("other", 3.0, "script"),
    ];
    let set = mtext_style(&styles, &mtext());
    assert_eq!(set.size, num(2.0));
    assert_eq!(set.family, Some(FontFamily::Monospace));
}

#[test]
fn texts_can_slant_their_style() {
    let styles = vec![style("standard", 1.0, "italic")];
    let mut t = text();
    assert_eq!(text_style(&styles, &t).slant, Some(FontSlant::Italic));
    t.oblique_angle = num(20.0);
    assert_eq!(text_style(&styles, &t).slant, Some(FontSlant::Oblique(num(20.0))));
    assert_eq!(text_style(&vec![], &t).slant, None);
}
