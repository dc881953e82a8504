use yu_core::draw::{is_color_word, palette, parse_color, ColorSpec, PALETTE_LEN};
use yu_core::{ErrorKind, Lang, Rgb};

const RED: Rgb = Rgb(0xef, 0x44, 0x44);

#[test]
fn colours_in_every_form_and_both_languages() {
    for word in ["червоний", "червона", "червоне", "червоні", "red", " Червона ", "RED"] {
        assert_eq!(parse_color(word), Ok(ColorSpec::Exact(RED)), "{word}");
    }
    let blue = ColorSpec::Exact(Rgb(0x00, 0x57, 0xb7));
    for word in ["синій", "синя", "синє", "сині", "blue"] {
        assert_eq!(parse_color(word), Ok(blue), "{word}");
    }
    assert_eq!(parse_color("grey"), parse_color("сіра"));
    assert_eq!(parse_color("#FF8800"), Ok(ColorSpec::Exact(Rgb(0xff, 0x88, 0x00))));
    assert_eq!(parse_color("випадкова"), Ok(ColorSpec::Random));
    assert_eq!(parse_color("random"), Ok(ColorSpec::Random));
    assert_eq!(Rgb(0x00, 0x57, 0xb7).hex(), "#0057b7");
}

#[test]
fn unknown_colours_suggest_the_nearest_name() {
    assert_eq!(
        parse_color("червний"),
        Err(ErrorKind::UnknownColor {
            name: "червний".into(),
            suggestion: Some("червоний".into())
        })
    );
    assert_eq!(
        parse_color("#12"),
        Err(ErrorKind::UnknownColor {
            name: "#12".into(),
            suggestion: None
        })
    );
}

#[test]
fn random_picks_a_bright_colour_other_than_the_current_one() {
    let all = palette();
    let bright: Vec<Rgb> = all[..8].iter().map(|c| c.rgb).collect();
    let mut rng = 7;
    for _ in 0..100 {
        let c = ColorSpec::Random.pick(RED, &mut rng);
        assert_ne!(c, RED);
        assert!(bright.contains(&c));
    }
}

#[test]
fn colour_words_without_quotes_are_recognised() {
    assert!(is_color_word("червоний"));
    assert!(is_color_word("Blue"));
    assert!(is_color_word("випадковий"));
    assert!(!is_color_word("бал"));
}

#[test]
fn the_palette_names_twelve_colours() {
    let all = palette();
    assert_eq!(all.len(), PALETTE_LEN);
    assert_eq!(all[0].name(Lang::Uk), "червоний");
    assert_eq!(all[5].name(Lang::Uk), "синій");
    assert_eq!(all[10].name(Lang::En), "gray");
    assert_eq!(all[11].hex(), "#8b5a2b");
}

#[test]
fn an_exact_colour_stays_what_it_is() {
    let mut rng = 1;
    let c = ColorSpec::Exact(Rgb(1, 2, 3)).pick(RED, &mut rng);
    assert_eq!(c, Rgb(1, 2, 3));
}
