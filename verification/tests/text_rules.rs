use slideforge::error::Error;
use slideforge::pptd::elements::LineCurve;
use slideforge::pptx::import::IdAllocator;
use slideforge::pptx::theme::{resolve_color, ResolvedRgb};
use slideforge::pptd::shared::{Color, HorizontalAlign};
use slideforge::pptx::base64::{base64url, base64url_decode};
use slideforge::pptx::icon::{icon_key, icon_payload, icon_payload_text};
use slideforge::pptx::import::{
    css_align as css_text_align, layout_key, preset_color_hex, rels_part, resolve_target,
    resolve_typeface, ThemeFonts,
};
use slideforge::pptx::render::{css_align, css_pairs, css_value, line_join, unescape_xml};

#[test]
fn base64url_known_values() {
    assert_eq!(base64url(b""), "");
    assert_eq!(base64url(b"f"), "Zg");
    assert_eq!(base64url(b"fo"), "Zm8");
    assert_eq!(base64url(b"foo"), "Zm9v");
    assert_eq!(base64url(b"hello"), "aGVsbG8");
    assert_eq!(base64url(&[0xfb, 0xff, 0xfe]), "-__-");
}

#[test]
fn base64url_decodes_and_rejects_foreign_characters() {
    assert_eq!(base64url_decode("aGVsbG8"), Some(b"hello".to_vec()));
    assert_eq!(base64url_decode("-__-"), Some(vec![0xfb, 0xff, 0xfe]));
    assert_eq!(base64url_decode(""), Some(vec![]));
    assert_eq!(base64url_decode("Z"), Some(vec![]));
    assert_eq!(base64url_decode("aGVs bG8"), None);
    assert_eq!(base64url_decode("aGVsbG8="), None);
    assert_eq!(base64url_decode("a+b/"), None);
}

#[test]
fn base64url_roundtrip_on_all_lengths() {
    let data: Vec<u8> = (0..=255u8).collect();
    for n in 0..data.len() {
        let text = base64url(&data[..n]);
        assert_eq!(base64url_decode(&text), Some(data[..n].to_vec()));
    }
}

#[test]
fn icon_payload_roundtrip() {
    let text = icon_payload_text("mobile-screen");
    assert_eq!(text, "eyJpY29uTmFtZSI6Im1vYmlsZS1zY3JlZW4ifQ");
    assert_eq!(icon_payload(&text), Some("mobile-screen".to_string()));
    assert_eq!(icon_payload(&format!("\n  {text}\t")), Some("mobile-screen".to_string()));
    let unicode = icon_payload_text("星");
    assert_eq!(icon_payload(&unicode), Some("星".to_string()));
}

#[test]
fn icon_payload_rejects_other_text() {
    assert_eq!(icon_payload("not base64!"), None);
    assert_eq!(icon_payload(&base64url(b"{\"name\":\"x\"}")), None);
    assert_eq!(icon_payload(&base64url(b"{\"iconName\":\"unterminated")), None);
    assert_eq!(icon_payload(&base64url(&[0xff, 0xfe])), None);
}

#[test]
fn relationship_targets_resolve_against_the_part_dir() {
    assert_eq!(
        resolve_target("ppt/slides/slide1.xml", "../media/image1.png"),
        "ppt/media/image1.png"
    );
    assert_eq!(resolve_target("ppt/presentation.xml", "slides/slide1.xml"), "ppt/slides/slide1.xml");
    assert_eq!(resolve_target("presentation.xml", "./a//b.xml"), "a/b.xml");
    assert_eq!(resolve_target("ppt/slides/slide1.xml", "../../../x.xml"), "x.xml");
    assert_eq!(resolve_target("ppt/slides/slide1.xml", "/ppt/media/image1.png"), "ppt/media/image1.png");
    assert_eq!(resolve_target("ppt/slides/slide1.xml", "/ppt/../x.xml"), "x.xml");
}

#[test]
fn rels_part_paths() {
    assert_eq!(rels_part("ppt/slides/slide1.xml"), "ppt/slides/_rels/slide1.xml.rels");
    assert_eq!(rels_part("presentation.xml"), "_rels/presentation.xml.rels");
}

#[test]
fn layout_keys() {
    assert_eq!(layout_key("ppt/slideLayouts/slideLayout13.xml"), "layout_13");
    assert_eq!(layout_key("ppt/slideLayouts/custom.v2.xml"), "layout_2");
    assert_eq!(layout_key("ppt/slideLayouts/title.xml"), "layout_title");
    assert_eq!(layout_key("odd.name.xml.xml"), "layout_odd_name");
}

#[test]
fn theme_font_aliases_resolve_to_theme_fonts() {
    let fonts = ThemeFonts {
        major: Some("Calibri Light".to_string()),
        minor: Some("Calibri".to_string()),
    };
    assert_eq!(
        resolve_typeface("+mn-lt", &fonts).as_deref(),
        Some("Calibri"),
        "+mn-lt alias must resolve to the theme minor font"
    );
    assert_eq!(resolve_typeface("+mj-ea", &fonts).as_deref(), Some("Calibri Light"));
    assert_eq!(resolve_typeface("Arial", &fonts).as_deref(), Some("Arial"));
    assert_eq!(resolve_typeface("", &fonts), None);
    assert_eq!(resolve_typeface("+mn-cs", &ThemeFonts::default()), None);
}

#[test]
fn preset_colors() {
    assert_eq!(preset_color_hex("black"), "000000");
    assert_eq!(preset_color_hex("lightGrey"), "D3D3D3");
    assert_eq!(preset_color_hex("dkOrange"), "FF8C00");
    assert_eq!(preset_color_hex("salmon"), "FA8072");
    assert_eq!(preset_color_hex("notAColor"), "000000");
}

#[test]
fn alignment_keywords() {
    assert_eq!(css_text_align(HorizontalAlign::Center), "center");
    assert_eq!(css_text_align(HorizontalAlign::Distributed), "distributed");
    assert_eq!(css_align("center"), Some("ctr"));
    assert_eq!(css_align("justify"), Some("just"));
    assert_eq!(css_align("Center"), None);
}

#[test]
fn css_declarations() {
    let pairs = css_pairs(" Font-Size : 24px; color:#f00;;bad; :x; y: ;a:b:c");
    assert_eq!(
        pairs,
        vec![
            ("font-size".to_string(), "24px".to_string()),
            ("color".to_string(), "#f00".to_string()),
            ("a".to_string(), "b".to_string()),
        ]
    );
    assert_eq!(css_value(&pairs, "color"), Some("#f00"));
    assert_eq!(css_value(&pairs, "Color"), None);
    assert!(css_pairs("").is_empty());
}

#[test]
fn entities_are_decoded_in_turn() {
    assert_eq!(unescape_xml("a &lt;b&gt; &quot;c&quot; &apos;d&apos; &amp; e"), "a <b> \"c\" 'd' & e");
    assert_eq!(unescape_xml("&amp;lt;"), "&lt;");
    assert_eq!(unescape_xml("plain"), "plain");
    for s in ["&lt;", "a<b>&\"'c", "&amp;amp;", "plain"] {
        assert_eq!(unescape_xml(&slideforge::pptx::xml::escape(s)), s);
    }
}

#[test]
fn line_joins() {
    assert_eq!(line_join(LineCurve::Sharp), "miter");
    assert_eq!(line_join(LineCurve::Round), "round");
    assert_eq!(line_join(LineCurve::Smooth), "round");
}

#[test]
fn color_theme_references() {
    let c = Color("$primary".to_string());
    assert!(c.is_theme_ref());
    assert_eq!(c.theme_key().as_deref(), Some("primary"));
    let hex = Color("#2563EB".to_string());
    assert!(!hex.is_theme_ref());
    assert_eq!(hex.theme_key(), None);
    assert_eq!(Color("$".to_string()).theme_key().as_deref(), Some(""));
}

#[test]
fn unique_ids_number_taken_names() {
    let mut ids = IdAllocator::new();
    assert_eq!(ids.unique_id("  Title 1 ", "text"), "Title 1");
    assert_eq!(ids.unique_id("Title 1", "text"), "Title 1 2");
    assert_eq!(ids.unique_id("Title 1", "text"), "Title 1 3");
    assert_eq!(ids.unique_id("   ", "shape"), "shape");
    assert_eq!(ids.unique_id("", "shape"), "shape 2");
    assert_eq!(ids.unique_id("Title 1 2", "text"), "Title 1 2 2");
}

#[test]
fn colors_resolve_to_rgb_and_alpha() {
    let theme = vec![("primary".to_string(), "#2563eb".to_string()), ("Glass".to_string(), "#FFFFFF80".to_string())];
    let rgb = |s: &str, a: Option<u8>| ResolvedRgb { rgb: s.to_string(), alpha: a };
    assert_eq!(resolve_color(Some(&theme), &Color("$primary".to_string())).unwrap(), rgb("2563EB", None));
    assert_eq!(resolve_color(Some(&theme), &Color("$glass".to_string())).unwrap(), rgb("FFFFFF", Some(0x80)));
    assert_eq!(resolve_color(None, &Color("##abcdef".to_string())).unwrap(), rgb("ABCDEF", None));
    assert_eq!(resolve_color(None, &Color("#123456+f".to_string())).unwrap(), rgb("123456", Some(15)));
    assert_eq!(resolve_color(None, &Color("#ggg".to_string())).is_err(), true);
    match resolve_color(None, &Color("#zzzzzz".to_string())) {
        Err(Error::Invalid(m)) => assert_eq!(m, "invalid color `#zzzzzz`"),
        other => panic!("unexpected {other:?}"),
    }
    assert!(resolve_color(None, &Color("#12345é".to_string())).is_err());
    assert!(resolve_color(None, &Color("#abcdeé0".to_string())).is_err());
    match resolve_color(None, &Color("$primary".to_string())) {
        Err(Error::Unsupported(m)) => assert_eq!(m, "unresolved theme color `$primary`"),
        other => panic!("unexpected {other:?}"),
    }
    match resolve_color(Some(&theme), &Color("#12345".to_string())) {
        Err(Error::Invalid(m)) => assert_eq!(m, "invalid color `#12345`"),
        other => panic!("unexpected {other:?}"),
    }
    match resolve_color(Some(&theme), &Color("#123456zz".to_string())) {
        Err(Error::Invalid(m)) => assert_eq!(m, "invalid color `#123456zz`"),
        other => panic!("unexpected {other:?}"),
    }
}

#[test]
fn icon_names_take_the_solid_style_prefix_only() {
    assert_eq!(icon_key("fas:mobile-screen").as_deref(), Some("mobile-screen"));
    assert_eq!(icon_key("mobile-screen").as_deref(), Some("mobile-screen"));
    assert_eq!(icon_key("far:mobile-screen"), None);
    assert_eq!(icon_key("fas:a:b").as_deref(), Some("a:b"));
}
