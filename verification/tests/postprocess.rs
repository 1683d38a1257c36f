use pathsmith_core::config::{PostprocessConfig, Thousandths};
use pathsmith_core::postprocess::{max_channel, postprocess, should_seal, size_svg};

fn cfg(strip: bool, seal: bool, cap: u8) -> PostprocessConfig {
    PostprocessConfig {
        strip_tiny_paths: strip,
        tiny_path_max_len: 10,
        seal_gaps: seal,
        seal_stroke_width: Thousandths(800),
        seal_max_brightness: cap,
    }
}

#[test]
fn max_channel_of_hex_colours() {
    assert_eq!(max_channel("#abc"), Some(0xcc));
    assert_eq!(max_channel("#aabbcc"), Some(0xcc));
    assert_eq!(max_channel("#102030"), Some(0x30));
    assert_eq!(max_channel("#FF0000"), Some(255));
    assert_eq!(max_channel("#+a+b+c"), Some(12));
    assert_eq!(max_channel("#12"), None);
    assert_eq!(max_channel("red"), None);
    assert_eq!(max_channel("#zzzzzz"), None);
    assert_eq!(max_channel("#zé"), None);
    assert_eq!(max_channel("#ab\u{e9}"), None);
}

#[test]
fn short_colour_matches_long_form() {
    for s in ["#0f8", "#abc", "#123", "#fff"] {
        let long: String = s.chars().flat_map(|c| if c == '#' { vec![c] } else { vec![c, c] }).collect();
        assert_eq!(max_channel(s), max_channel(&long));
    }
}

#[test]
fn colours_that_would_be_cut_are_unparseable() {
    assert_eq!(max_channel("#\u{20ac}"), None);
    assert!(should_seal("#\u{20ac}", 80));
    assert!(should_seal("#\u{20ac}", 255));
}

#[test]
fn should_seal_rules() {
    assert!(!should_seal("none", 255));
    assert!(!should_seal(" Transparent ", 80));
    assert!(should_seal("#ffffff", 255));
    assert!(!should_seal("#808080", 80));
    assert!(should_seal("#303030", 80));
    assert!(should_seal("#505050", 80));
    assert!(should_seal("bogus", 80));
    assert!(should_seal("  #ABC ", 0xcc));
    assert!(!should_seal("  #ABC ", 0xcb));
}

#[test]
fn passes_off_return_input() {
    let svg = "<svg><path d=\"M0\" fill=\"#000\"/></svg> not xml <<";
    assert_eq!(postprocess(svg, &cfg(false, false, 255)), svg);
}

#[test]
fn tiny_paths_are_dropped() {
    let svg = "<svg><path d=\"M0 0\" fill=\"#000\"/><path d=\"M0 0 L 100 100 L 200 0 Z\" fill=\"#fff\"/></svg>";
    let out = postprocess(svg, &cfg(true, false, 255));
    assert_eq!(out, "<svg><path d=\"M0 0 L 100 100 L 200 0 Z\" fill=\"#fff\"/></svg>");
}

#[test]
fn dark_paths_are_sealed() {
    let svg = "<svg><path d=\"M0 0 L 1 1\" fill=\"#102030\"/><path d=\"M1\" fill=\"#ffffff\"/></svg>";
    let out = postprocess(svg, &cfg(false, true, 80));
    assert_eq!(
        out,
        "<svg><path d=\"M0 0 L 1 1\" fill=\"#102030\" stroke=\"#102030\" stroke-width=\"0.8\" stroke-linejoin=\"round\"/><path d=\"M1\" fill=\"#ffffff\"/></svg>"
    );
}

#[test]
fn stroked_paths_are_left_alone() {
    let svg = "<svg><path d=\"M0\" fill=\"#000\" stroke=\"red\"/></svg>";
    assert_eq!(postprocess(svg, &cfg(false, true, 255)), svg);
}

#[test]
fn broken_xml_is_returned_unchanged() {
    let svg = "<svg><path d=\"M0\" fill=\"#000\"/></g></svg>";
    assert_eq!(postprocess(svg, &cfg(false, true, 255)), svg);
}

#[test]
fn fill_that_cannot_be_scanned_is_sealed() {
    let svg = "<svg><path d=\"M0\" fill=\"#\u{20ac}\"/></svg>";
    assert_eq!(
        postprocess(svg, &cfg(false, true, 80)),
        "<svg><path d=\"M0\" fill=\"#\u{20ac}\" stroke=\"#\u{20ac}\" stroke-width=\"0.8\" stroke-linejoin=\"round\"/></svg>"
    );
}

#[test]
fn path_at_the_length_limit_is_kept() {
    let mut c = cfg(true, false, 255);
    c.tiny_path_max_len = 3;
    let svg = "<svg><path d=\"M00\"/></svg>";
    assert_eq!(postprocess(svg, &c), svg);
    c.tiny_path_max_len = 4;
    assert_eq!(postprocess(svg, &c), "<svg></svg>");
    c.tiny_path_max_len = 3;
    let wide = "<svg><path d=\"M\u{e9}\u{20ac}\"/></svg>";
    assert_eq!(postprocess(wide, &c), wide);
    c.tiny_path_max_len = 4;
    assert_eq!(postprocess(wide, &c), "<svg></svg>");
}

#[test]
fn dropped_path_loses_its_end_tag() {
    let mut c = cfg(true, false, 255);
    c.tiny_path_max_len = 40;
    assert_eq!(postprocess("<svg><path d=\"M0\"></path></svg>", &c), "<svg></svg>");
    assert_eq!(
        postprocess("<svg><path d=\"M0\"><title>t<b/></title></path><g></g></svg>", &c),
        "<svg><g></g></svg>"
    );
    let long = "<svg><path d=\"M0 0 L 100 100 L 200 0 L 300 300 L 400 400 L 500 0 Z\"></path></svg>";
    assert_eq!(postprocess(long, &c), long);
}

#[test]
fn stroke_width_is_printed_as_decimal() {
    let mut c = cfg(false, true, 255);
    c.seal_stroke_width = Thousandths(1000);
    let out = postprocess("<svg><path d=\"M0\" fill=\"#000\"/></svg>", &c);
    assert!(out.contains("stroke-width=\"1\""), "{out}");
    c.seal_stroke_width = Thousandths(1250);
    let out = postprocess("<svg><path d=\"M0\" fill=\"#000\"/></svg>", &c);
    assert!(out.contains("stroke-width=\"1.25\""), "{out}");
}

#[test]
fn root_svg_is_resized_over_the_traced_drawing() {
    let svg = "<svg version=\"1.1\" xmlns=\"http://www.w3.org/2000/svg\" width=\"8\" height=\"6\"><path d=\"M0\"/><svg width=\"1\"/></svg>";
    assert_eq!(
        size_svg(svg, 4, 3, 8, 6),
        "<svg version=\"1.1\" xmlns=\"http://www.w3.org/2000/svg\" width=\"4\" height=\"3\" viewBox=\"0 0 8 6\"><path d=\"M0\"/><svg width=\"1\"/></svg>"
    );
    let with_box = "<svg width=\"8\" viewBox=\"0 0 1 1\"></svg>";
    assert_eq!(size_svg(with_box, 4, 3, 8, 6), "<svg width=\"4\" viewBox=\"0 0 1 1\"></svg>");
    let broken = "<svg></g>";
    assert_eq!(size_svg(broken, 4, 3, 8, 6), broken);
}
