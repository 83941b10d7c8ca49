use terra_store::theme::{parse_hex_color, ColorPalette, PywalColors, Rgb, SpecialColors, Theme};

#[test]
fn test_parse_hex_color() {
    assert_eq!(parse_hex_color("#ff0000"), Some(Rgb { r: 255, g: 0, b: 0 }));
    assert_eq!(parse_hex_color("#00ff00"), Some(Rgb { r: 0, g: 255, b: 0 }));
    assert_eq!(parse_hex_color("1f2428"), Some(Rgb { r: 31, g: 36, b: 40 }));
}

#[test]
fn test_default_theme() {
    let theme = Theme::default();
    assert_eq!(theme.bg, Rgb { r: 31, g: 36, b: 40 });
}

#[test]
fn bad_hex_colors() {
    assert_eq!(parse_hex_color("#ff00"), None);
    assert_eq!(parse_hex_color("#gg0000"), None);
    assert_eq!(parse_hex_color("#ffé000"), None);
    assert_eq!(parse_hex_color("##0A0b0C"), Some(Rgb { r: 10, g: 11, b: 12 }));
}

fn palette(c: &str) -> ColorPalette {
    let s = || c.to_string();
    ColorPalette {
        color0: s(), color1: "#e06c75".into(), color2: s(), color3: s(), color4: s(), color5: s(),
        color6: s(), color7: s(), color8: s(), color9: s(), color10: s(), color11: s(),
        color12: s(), color13: s(), color14: s(), color15: s(),
    }
}

#[test]
fn theme_from_pywal() {
    let special = SpecialColors { background: "#000000".into(), foreground: "#ffffff".into(), cursor: "#ffffff".into() };
    let pywal = PywalColors { wallpaper: None, special: special.clone(), colors: palette("#102030") };
    let theme = Theme::from_pywal(&pywal).unwrap();
    assert_eq!(theme.fg, Rgb { r: 255, g: 255, b: 255 });
    assert_eq!(theme.error, Rgb { r: 224, g: 108, b: 117 });
    assert_eq!(theme.border, Rgb { r: 16, g: 32, b: 48 });
    let broken = PywalColors { wallpaper: None, special, colors: palette("nope") };
    assert!(Theme::from_pywal(&broken).is_none());
}
