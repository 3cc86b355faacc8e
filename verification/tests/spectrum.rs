use ncspot::canvas::{Ink, Sheet};
use ncspot::ui::spectrum::{block, draw, Area, Band, Palette, Style};

#[test]
fn an_unknown_style_falls_back_to_bars() {
    assert_eq!(Style::parse(Some("mirror")), Style::Mirror);
    assert_eq!(Style::parse(Some(" WAVE ")), Style::Wave);
    assert_eq!(Style::parse(Some("vu")), Style::Vu);
    assert_eq!(Style::parse(Some("wobble")), Style::Bars);
    assert_eq!(Style::parse(None), Style::Bars);
}

fn rounded(level: f64) -> usize {
    level.round().max(0.0) as usize
}

/// The band that a bar for each of `levels` makes over `rows` rows.
fn band(levels: &[f64], rows: usize) -> Band {
    let ceiling = (rows * 8) as f64;
    let reflected = ((rows / 2) * 8) as f64;
    let columns = levels.len() as f64;
    let average = levels.iter().sum::<f64>() / columns;
    let loudest = levels.iter().fold(0.0f64, |peak, level| peak.max(*level));
    Band {
        levels: levels.iter().map(|level| rounded(*level)).collect(),
        peaks: levels.iter().map(|level| rounded(*level)).collect(),
        reflections: levels.iter().map(|level| rounded((level * 0.6).min(reflected))).collect(),
        average: rounded(average / ceiling * columns),
        loudest: rounded(loudest / ceiling * columns),
    }
}

/// Draw `levels` in `style` and read the screen back a row at a time.
fn render(levels: &[f64], style: Style, columns: usize, rows: usize) -> Vec<String> {
    let palette =
        Palette { hot: Ink::Primary, warm: Ink::Primary, quiet: Ink::Secondary, live: true };
    let area = Area { origin: 0, top: 0, width: levels.len(), rows };
    let mut sheet = Sheet::new();
    draw(&mut sheet, rows, &band(levels, rows), area, palette, style);

    let mut screen = vec![vec![' '; columns]; rows];
    for print in &sheet.prints {
        for (offset, glyph) in print.text.chars().enumerate() {
            screen[print.y][print.x + offset] = glyph;
        }
    }
    screen.iter().map(|row| row.iter().collect::<String>().trim_end().to_string()).collect()
}

/// Full height in the first column, half in the second, silence in the third.
fn levels(rows: usize) -> Vec<f64> {
    let ceiling = (rows * 8) as f64;
    vec![ceiling, ceiling / 2.0, 0.0]
}

#[test]
fn bars_grow_up_from_the_baseline() {
    let rows = 4;
    let drawn = render(&levels(rows), Style::Bars, 3, rows);
    // The tall column reaches the top row; the quiet one is left as a floor.
    assert!(drawn[0].starts_with('█'), "{drawn:?}");
    assert_eq!(drawn[rows - 1].chars().nth(2), Some('▁'), "{drawn:?}");
    // The half height column is empty in the top half and solid in the bottom.
    assert_eq!(drawn[0].chars().nth(1), None, "{drawn:?}");
    assert_eq!(drawn[rows - 1].chars().nth(1), Some('█'), "{drawn:?}");
}

#[test]
fn the_mirror_hangs_a_reflection_below_the_band() {
    let rows = 4;
    let drawn = render(&levels(rows), Style::Mirror, 3, rows);
    // The bars are squeezed into the upper rows, and the lower ones carry a shorter copy
    // hanging from the surface.
    let reflected = rows / 2;
    assert!(!drawn[rows - reflected].is_empty(), "{drawn:?}");
    assert!(
        !drawn[rows - 1].starts_with('▁'),
        "the floor should belong to the reflection: {drawn:?}"
    );
}

#[test]
fn the_wave_draws_one_cell_per_column() {
    let rows = 4;
    let drawn = render(&levels(rows), Style::Wave, 3, rows);
    let drawn: String = drawn.concat();
    assert_eq!(
        drawn.chars().filter(|c| *c != ' ').count(),
        3,
        "one glyph per column, got {drawn:?}"
    );
}

#[test]
fn the_vu_meter_fills_one_row() {
    let rows = 3;
    let drawn = render(&levels(rows), Style::Vu, 3, rows);
    let meter = drawn.iter().filter(|row| row.contains('█')).count();
    assert_eq!(meter, 1, "the meter is one row: {drawn:?}");
}

#[test]
fn a_style_is_known_by_its_name() {
    assert_eq!(Style::named("bars"), Style::Bars);
    assert_eq!(Style::named("wave"), Style::Wave);
    let blocks: String = (1..=8).map(block).collect();
    assert_eq!(blocks, "▁▂▃▄▅▆▇█");
}

#[test]
fn a_band_without_room_is_not_drawn() {
    let palette =
        Palette { hot: Ink::Primary, warm: Ink::Primary, quiet: Ink::Secondary, live: true };
    for (width, rows) in [(0, 3), (3, 0), (4, 3)] {
        for style in [Style::Bars, Style::Mirror, Style::Wave, Style::Vu] {
            let mut sheet = Sheet::new();
            let area = Area { origin: 0, top: 0, width, rows };
            draw(&mut sheet, 10, &band(&[1.0, 2.0, 3.0], 3), area, palette, style);
            assert!(sheet.prints.is_empty());
        }
    }
}

#[test]
fn a_quiet_band_has_one_colour() {
    let palette =
        Palette { hot: Ink::Playing, warm: Ink::Accent, quiet: Ink::Secondary, live: false };
    for style in [Style::Bars, Style::Mirror, Style::Wave, Style::Vu] {
        let mut sheet = Sheet::new();
        let area = Area { origin: 0, top: 0, width: 3, rows: 4 };
        draw(&mut sheet, 4, &band(&levels(4), 4), area, palette, style);
        assert!(!sheet.prints.is_empty());
        assert!(sheet.prints.iter().all(|print| print.ink == Ink::Secondary));
    }
}
