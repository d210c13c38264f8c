use icon_export::color::change_svg_color;

#[test]
fn rewrites_all_three_forms() {
    let svg = r##"<svg><path fill="currentColor" stroke='currentColor' style="fill:currentColor"/></svg>"##;
    let out = change_svg_color(svg, "#FF0000");
    assert!(out.contains(r##"fill="#FF0000""##));
    assert!(out.contains(r##"stroke='#FF0000'"##));
    assert!(out.contains(r##"style="fill:#FF0000""##));
    assert!(!out.contains("currentColor"));
}

#[test]
fn rewrites_bare_occurrence() {
    let out = change_svg_color("stop-color:currentColor;", "#00FF00");
    assert_eq!(out, "stop-color:#00FF00;");
}

#[test]
fn rewrites_stroke_double_quoted() {
    let out = change_svg_color(r##"<path stroke="currentColor"/>"##, "black");
    assert_eq!(out, r##"<path stroke="black"/>"##);
}

#[test]
fn rewrites_single_quoted_fill() {
    let out = change_svg_color("<path fill='currentColor'/>", "#123456");
    assert_eq!(out, "<path fill='#123456'/>");
}

#[test]
fn rewrites_style_stroke_declaration() {
    let out = change_svg_color(r##"<path style="stroke:currentColor"/>"##, "#ABCDEF");
    assert_eq!(out, r##"<path style="stroke:#ABCDEF"/>"##);
}

#[test]
fn leaves_token_free_text_unchanged() {
    let svg = r##"<svg><rect fill="#000000"/></svg>"##;
    assert_eq!(change_svg_color(svg, "#FF0000"), svg);
}

#[test]
fn empty_input_stays_empty() {
    assert_eq!(change_svg_color("", "#FF0000"), "");
}

#[test]
fn replacement_inserted_verbatim() {
    let out = change_svg_color(r##"fill="currentColor""##, "not a color at all");
    assert_eq!(out, r##"fill="not a color at all""##);
}

#[test]
fn idempotent_for_ordinary_replacement() {
    let svg = r##"<svg><path fill="currentColor" d="M0 0"/>currentColor</svg>"##;
    let once = change_svg_color(svg, "#FF0000");
    let twice = change_svg_color(&once, "#FF0000");
    assert_eq!(once, twice);
}

#[test]
fn token_replacement_is_identity_twice() {
    // Replacing the token by itself changes nothing, so a second pass is a
    // no-op as well.
    let svg = r##"<path fill="currentColor"/>"##;
    let once = change_svg_color(svg, "currentColor");
    assert_eq!(once, svg);
    assert_eq!(change_svg_color(&once, "currentColor"), svg);
}

#[test]
fn overlapping_replacement_is_not_idempotent() {
    // A replacement that ends in a proper prefix of the token can form a
    // fresh token with the following text: this input is outside the
    // proved idempotence law, and indeed behaves differently on a second
    // pass.
    let svg = "currentColorr";
    let once = change_svg_color(svg, "XcurrentColo");
    assert_eq!(once, "XcurrentColor");
    let twice = change_svg_color(&once, "XcurrentColo");
    assert_ne!(once, twice);
}
