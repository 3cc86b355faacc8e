use ncspot::canvas::Vec2;
use ncspot::ui::album_art::{
    best_shade, best_split, count_shades, in_front, prefetch_covers, quadrant, read_cover,
    shades_of, shades_of_decoded, shades_of_file, AlbumArt, Cell, Cover, Drawing, Rgb, Shade,
    Unreadable, COST_LIMIT, MAX_LOADED, MAX_SCALED,
};

/// A decoded cover, as far as these tests care.
fn image() -> Vec<u8> {
    vec![255, 0, 0, 0, 0, 255]
}

fn cell(glyph: char) -> Cell {
    let black = Rgb { r: 0, g: 0, b: 0 };
    Cell { glyph, foreground: black, background: black }
}

fn grid(size: Vec2) -> Vec<Cell> {
    (0..size.x * size.y).map(|_| cell('x')).collect()
}

#[test]
fn a_cover_is_only_ready_for_its_own_url() {
    let mut art: AlbumArt<Vec<u8>> = AlbumArt::new();
    art.load("cover", image(), 0);
    assert!(art.is_ready("cover"));
    assert!(!art.is_ready("another"));
    let size = Vec2::new(2, 2);
    assert!(matches!(art.draw(Vec2::new(0, 0), size, "another"), Drawing::Missing { .. }));
}

#[test]
fn one_cover_can_be_held_at_several_sizes_at_once() {
    // The card and a thumbnail of the same cover are on screen together, so scaling for one
    // must not throw the other away.
    let mut art: AlbumArt<Vec<u8>> = AlbumArt::new();
    art.load("cover", image(), 0);
    for size in [Vec2::new(2, 2), Vec2::new(4, 3)] {
        art.store_grid("cover", size, grid(size));
    }

    let cells = |size: Vec2| art.grid("cover", size).map(|scaled| scaled.cells.len());
    assert_eq!(cells(Vec2::new(2, 2)), Some(4));
    assert_eq!(cells(Vec2::new(4, 3)), Some(12));
}

#[test]
fn the_cover_cache_stays_within_its_budget() {
    let mut art: AlbumArt<Vec<u8>> = AlbumArt::new();
    for index in 0..MAX_LOADED + 3 {
        art.load(&format!("cover {index}"), image(), 0);
    }
    assert_eq!(art.loaded.len(), MAX_LOADED);
    // The covers that went are the ones loaded longest ago.
    assert!(!art.is_ready("cover 0"));
    assert!(art.is_ready(&format!("cover {}", MAX_LOADED + 2)));
}

#[test]
fn a_cover_that_comes_again_takes_the_place_of_the_old_one() {
    let mut art: AlbumArt<u32> = AlbumArt::new();
    art.load("a", 1, 10);
    art.load("b", 2, 20);
    art.load("a", 3, 30);
    let urls: Vec<&str> = art.loaded.iter().map(|cover| cover.url.as_str()).collect();
    assert_eq!(urls, ["b", "a"]);
    let cover = art.cover("a").unwrap();
    assert_eq!((cover.image, cover.shown_at), (3, 30));
}

#[test]
fn a_cover_is_fetched_once() {
    let mut art: AlbumArt<u32> = AlbumArt::new();
    assert!(art.prefetch("a"));
    assert!(!art.prefetch("a"));
    // A fetch that failed can be tried again.
    assert!(!art.install("a", None, 0));
    assert!(!art.is_ready("a"));
    assert!(art.prefetch("a"));
    assert!(art.install("a", Some(1), 0));
    assert!(art.is_ready("a"));
    assert!(art.pending.is_empty());
}

#[test]
fn a_cover_is_drawn_cell_by_cell() {
    let mut art: AlbumArt<u32> = AlbumArt::new();
    let size = Vec2::new(2, 2);
    let offset = Vec2::new(10, 20);
    assert!(matches!(art.draw(offset, Vec2::new(0, 2), "a"), Drawing::NoRoom));
    assert!(matches!(art.draw(offset, size, "a"), Drawing::Missing { fetch: true }));
    assert!(matches!(art.draw(offset, size, "a"), Drawing::Missing { fetch: false }));
    art.install("a", Some(1), 0);
    assert!(matches!(art.draw(offset, size, "a"), Drawing::Unscaled));
    art.store_grid("a", size, vec![cell('1'), cell('2'), cell('3'), cell('4')]);
    let Drawing::Cells(cells) = art.draw(offset, size, "a") else {
        panic!("the cover is ready");
    };
    let placed: Vec<(usize, usize, char)> =
        cells.iter().map(|placed| (placed.x, placed.y, placed.cell.glyph)).collect();
    assert_eq!(placed, [(10, 20, '1'), (11, 20, '2'), (10, 21, '3'), (11, 21, '4')]);
}

#[test]
fn grids_stay_within_their_budget() {
    let mut art: AlbumArt<u32> = AlbumArt::new();
    for width in 1..=MAX_SCALED + 1 {
        let size = Vec2::new(width, 1);
        art.store_grid("a", size, grid(size));
    }
    assert_eq!(art.scaled.len(), MAX_SCALED);
    assert!(art.grid("a", Vec2::new(1, 1)).is_none());
    assert!(art.grid("a", Vec2::new(2, 1)).is_some());
}

#[test]
fn covers_are_queued_once() {
    let mut queued = vec!["b".to_string()];
    let wanted: Vec<String> =
        ["a", "b", "c", "a"].iter().map(|url| url.to_string()).collect();
    assert_eq!(prefetch_covers(&mut queued, &wanted), ["c", "a"]);
    assert_eq!(queued, ["b", "a", "c"]);
    assert!(prefetch_covers(&mut queued, &wanted).is_empty());
}

#[test]
fn the_newest_cover_is_fetched_first() {
    let mut queued = Vec::new();
    let urls: Vec<String> = ["a", "b", "c"].iter().map(|url| url.to_string()).collect();
    assert_eq!(prefetch_covers(&mut queued, &urls), ["c", "b", "a"]);
    assert!(prefetch_covers(&mut queued, &urls[1..].to_vec()).is_empty());
}

#[test]
fn a_grid_that_is_drawn_is_not_the_one_that_goes() {
    let mut art: AlbumArt<u32> = AlbumArt::new();
    art.load("c", 1, 0);
    let size = |width: usize| Vec2::new(width, 1);
    let offset = Vec2::new(0, 0);
    for width in 1..=MAX_SCALED {
        assert!(matches!(art.draw(offset, size(width), "c"), Drawing::Unscaled));
        art.store_grid("c", size(width), grid(size(width)));
    }
    assert!(matches!(art.draw(offset, size(1), "c"), Drawing::Cells(_)));
    art.store_grid("c", size(MAX_SCALED + 1), grid(size(MAX_SCALED + 1)));
    assert_eq!(art.scaled.len(), MAX_SCALED);
    assert!(art.grid("c", size(1)).is_some());
    assert!(art.grid("c", size(2)).is_none(), "it was used longest ago");
    assert!(art.grid("c", size(MAX_SCALED + 1)).is_some());
    let widths: Vec<usize> = art.scaled.iter().map(|scaled| scaled.size.x).collect();
    assert_eq!((widths[0], widths[22], widths[23]), (3, 1, 25));
}

#[test]
fn a_cover_that_is_drawn_is_not_the_one_that_goes() {
    let mut art: AlbumArt<u32> = AlbumArt::new();
    for index in 0..MAX_LOADED {
        art.load(&format!("cover {index}"), 0, 0);
    }
    assert!(matches!(art.draw(Vec2::new(0, 0), Vec2::new(1, 1), "cover 0"), Drawing::Unscaled));
    art.load("one more", 0, 0);
    assert_eq!(art.loaded.len(), MAX_LOADED);
    assert!(art.is_ready("cover 0") && art.is_ready("one more"));
    assert!(!art.is_ready("cover 1"));
}

#[test]
fn a_glyph_covers_its_subpixels() {
    let left = quadrant(5);
    assert_eq!(left, '▌');
    assert_eq!((0..4).map(|i| in_front(5, i)).collect::<Vec<bool>>(), [true, false, true, false]);
    let glyphs: String = (0..16).map(quadrant).collect();
    assert_eq!(glyphs, " ▘▝▀▖▌▞▛▗▚▐▜▄▙▟█");
}

#[test]
fn the_cheapest_split_wins() {
    let mut costs = vec![1.0f32.to_bits(); 16];
    // A flat cell is one solid block: of equal costs the largest mask wins.
    assert_eq!(best_split(&costs), 15);
    costs[5] = 0.25f32.to_bits();
    assert_eq!(best_split(&costs), 5);
    costs[10] = 0.25f32.to_bits();
    assert_eq!(best_split(&costs), 10);
    let hopeless = vec![f32::INFINITY.to_bits(); 16];
    assert_eq!(best_split(&hopeless), 15);
    assert_eq!(COST_LIMIT, f32::MAX.to_bits());
}

/// How vivid a shade is, as the card judges it.
fn score(shade: &Shade) -> Option<u32> {
    let channels = [shade.mean.r, shade.mean.g, shade.mean.b].map(|c| c as f32 / 255.0);
    let high = channels.iter().cloned().fold(0.0f32, f32::max);
    let low = channels.iter().cloned().fold(1.0f32, f32::min);
    let saturation = if high <= 0.0 { 0.0 } else { (high - low) / high };
    if saturation < 0.28 || !(0.12..=0.97).contains(&high) {
        return None;
    }
    Some(((shade.count as f32).sqrt() * saturation * (0.4 + 0.6 * high)).to_bits())
}

fn accent_of(cover: Cover) -> Option<Rgb> {
    let shades = shades_of(cover);
    let scores: Vec<Option<u32>> = shades.iter().map(score).collect();
    best_shade(&scores).map(|index| shades[index].mean)
}

fn painted(paint: fn(usize) -> [u8; 3]) -> Cover {
    let mut pixels = Vec::new();
    for y in 0..32 {
        for _ in 0..32 {
            pixels.extend_from_slice(&paint(y));
        }
    }
    Cover { width: 32, height: 32, pixels }
}

#[test]
fn the_accent_is_the_covers_vivid_colour_not_its_biggest_one() {
    // Mostly dark grey with a band of orange: the orange is what a card wants.
    let cover = painted(|y| if y < 26 { [40, 40, 42] } else { [230, 120, 20] });
    let Rgb { r, g, b } = accent_of(cover).expect("a vivid colour is there");
    assert!(r > g && g > b, "expected an orange accent, got {r},{g},{b}");
}

#[test]
fn a_colourless_cover_keeps_the_theme() {
    let cover = painted(|y| {
        let shade = 30 + (y as u8 * 4);
        [shade, shade, shade]
    });
    assert!(accent_of(cover).is_none());
}

#[test]
fn shades_are_counted_in_a_coarse_cube() {
    // Two near blacks land together, one bright red stands alone.
    let pixels = vec![10, 10, 10, 20, 30, 40, 250, 0, 0];
    let shades = count_shades(&pixels);
    assert_eq!(
        shades,
        [
            Shade { count: 2, mean: Rgb { r: 15, g: 20, b: 25 } },
            Shade { count: 1, mean: Rgb { r: 250, g: 0, b: 0 } },
        ]
    );
    assert!(count_shades(&vec![]).is_empty());
}

#[test]
fn a_cover_of_one_colour_has_one_shade() {
    let shades = shades_of(painted(|_| [10, 14, 60]));
    assert_eq!(shades, [Shade { count: 48 * 48, mean: Rgb { r: 10, g: 14, b: 60 } }]);
    // A cover with nothing on it is black.
    let nothing = shades_of(Cover { width: 0, height: 0, pixels: vec![] });
    assert_eq!(nothing, [Shade { count: 48 * 48, mean: Rgb { r: 0, g: 0, b: 0 } }]);
}

#[test]
fn of_equal_scores_the_first_wins() {
    assert_eq!(best_shade(&vec![None, Some(3), Some(5), None, Some(5)]), Some(2));
    assert_eq!(best_shade(&vec![None, None]), None);
    assert_eq!(best_shade(&vec![]), None);
}

/// The file of a picture with one grey and one red pixel, in shades that are kept exactly.
fn file(format: image::ImageFormat) -> Vec<u8> {
    let picture = image::RgbImage::from_raw(2, 1, vec![60, 60, 60, 200, 10, 30]).unwrap();
    let mut file = std::io::Cursor::new(Vec::new());
    picture.write_to(&mut file, format).unwrap();
    file.into_inner()
}

#[test]
fn a_cover_is_read_from_its_file() {
    let cover = read_cover(&file(image::ImageFormat::Png)).unwrap();
    assert_eq!((cover.width, cover.height), (2, 1));
    assert_eq!(cover.pixels, [60, 60, 60, 200, 10, 30]);
    assert!(cover.is_scalable());
    // A photograph loses a little, but not its size.
    let cover = read_cover(&file(image::ImageFormat::Jpeg)).unwrap();
    assert_eq!((cover.width, cover.height, cover.pixels.len()), (2, 1, 6));
    // A grey picture has three components a pixel, too.
    let grey = image::GrayImage::from_raw(1, 2, vec![7, 9]).unwrap();
    let mut file = std::io::Cursor::new(Vec::new());
    grey.write_to(&mut file, image::ImageFormat::Png).unwrap();
    assert_eq!(read_cover(&file.into_inner()).unwrap().pixels, [7, 7, 7, 9, 9, 9]);
    assert!(read_cover(&vec![]).is_err());
    assert!(read_cover(&b"no picture at all".to_vec()).is_err());
}

#[test]
fn the_shades_of_a_file_are_those_of_its_cover() {
    let file = file(image::ImageFormat::Png);
    let Ok(found) = shades_of_file(&file) else {
        panic!("the file is a picture");
    };
    assert_eq!(found, shades_of(read_cover(&file).ok().unwrap()));
    assert!(found.len() > 1);
    assert!(matches!(shades_of_file(&file[..20].to_vec()), Err(Unreadable::Undecodable(_))));
}

#[test]
fn a_wide_cover_has_shades() {
    let width = 0x10_0001;
    let pixels = [10, 14, 60].repeat(width as usize);
    let found = shades_of_decoded(Ok(Cover { width, height: 1, pixels }));
    let shade = Shade { count: 48 * 48, mean: Rgb { r: 10, g: 14, b: 60 } };
    assert!(matches!(found, Ok(found) if found == [shade]));
    let found = shades_of_decoded(Err("torn".to_string()));
    assert!(matches!(found, Err(Unreadable::Undecodable(why)) if why == "torn"));
}
