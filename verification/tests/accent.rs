use ncspot::ui::accent::{Follow, State, Tint, CROSSFADE};

type Colour = (u8, u8, u8);

fn reset(from: Option<Colour>, to: Option<Colour>, changed_at: Option<u128>) -> State<Colour> {
    State { url: None, from, to, changed_at }
}

#[test]
fn a_cover_with_no_colour_leaves_the_theme_alone() {
    let theme = (10, 20, 30);
    let state = reset(None, None, None);
    assert!(matches!(state.current(theme, 0), Tint::Solid(tint) if tint == theme));
}

#[test]
fn the_tint_travels_from_the_old_colour_to_the_new_one() {
    let theme = (0, 0, 0);
    let old = (0, 0, 0);
    let new = (255, 255, 255);

    // Just changed: still the old colour.
    let state = reset(Some(old), Some(new), Some(5_000));
    match state.current(theme, 5_000) {
        Tint::Fading { from, to, age } => assert_eq!((from, to, age), (old, new, 0)),
        Tint::Solid(_) => panic!("the crossfade has begun"),
    }

    // Long finished: fully the new one.
    match state.current(theme, 5_000 + CROSSFADE * 2) {
        Tint::Fading { from, to, age } => {
            assert_eq!((from, to), (old, new));
            assert!(age >= CROSSFADE);
        }
        Tint::Solid(_) => panic!("the crossfade has begun"),
    }
}

const THEME: Colour = (9, 9, 9);

#[test]
fn only_a_new_cover_is_followed() {
    let mut state: State<Colour> = State::new();
    assert_eq!(state.follow(None, THEME, 1), Follow::Unchanged);
    assert_eq!(state.from, None);
    assert_eq!(state.follow(Some("a"), THEME, 2), Follow::Resolve);
    assert_eq!(state.follow(Some("a"), (1, 2, 3), 3), Follow::Unchanged);
    assert_eq!((state.from, state.changed_at), (Some(THEME), Some(2)));
    assert_eq!(state.follow(None, THEME, 4), Follow::Left);
    assert_eq!(state.url, None);
}

#[test]
fn a_colour_that_comes_too_late_is_dropped() {
    let mut state: State<Colour> = State::new();
    state.follow(Some("a"), THEME, 0);
    state.follow(Some("b"), THEME, 1);
    assert!(!state.resolve("a", Some((1, 1, 1)), 2));
    assert_eq!(state.to, None);
    assert!(state.resolve("b", Some((2, 2, 2)), 3));
    assert_eq!((state.to, state.changed_at), (Some((2, 2, 2)), Some(3)));
}

fn fading(tint: Tint<Colour>) -> (Colour, Colour, u128) {
    match tint {
        Tint::Fading { from, to, age } => (from, to, age),
        Tint::Solid(_) => panic!("a crossfade is running"),
    }
}

#[test]
fn a_crossfade_starts_from_what_is_on_screen() {
    let red = (255, 0, 0);
    let blue = (0, 0, 255);
    // The new cover has no colour yet, but the old colour is still on screen.
    assert_eq!(fading(reset(Some(red), None, Some(0)).midway(THEME, 1)), (red, THEME, 1));
    // The crossfade set out from the theme.
    assert_eq!(fading(reset(None, Some(blue), Some(0)).midway(THEME, 1)), (THEME, blue, 1));
    assert_eq!(fading(reset(Some(red), Some(blue), Some(10)).midway(THEME, 15)), (red, blue, 5));
    let still = reset(Some(red), Some(blue), None).midway(THEME, 1);
    assert!(matches!(still, Tint::Solid(tint) if tint == blue));
    let untouched = reset(None, None, None).midway(THEME, 1);
    assert!(matches!(untouched, Tint::Solid(tint) if tint == THEME));

    let mut state = reset(Some(red), Some(blue), Some(10));
    let violet = (128, 0, 128);
    state.follow(Some("next"), violet, 15);
    assert_eq!(fading(state.current(THEME, 15)), (violet, THEME, 0));
}

#[test]
fn the_tint_does_not_snap_when_a_cover_goes() {
    let red = (255, 0, 0);
    let mut state = reset(Some(red), None, Some(7));
    state.url = Some("a".to_string());
    // Just changed: the tint is where the crossfade set out from.
    let (before, _, age) = fading(state.midway(THEME, 7));
    assert_eq!((before, age), (red, 0));
    assert_eq!(state.follow(None, before, 7), Follow::Left);
    assert_eq!(fading(state.current(THEME, 7)), (red, THEME, 0));
}
