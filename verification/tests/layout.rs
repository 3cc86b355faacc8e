use ncspot::canvas::Ink;
use ncspot::ui::blocks::{blocks_height, fit_blocks, Block, BlockKind, Stack};

fn layout() -> Stack {
    let mut blocks = Stack::new();
    blocks.push(Block::new(BlockKind::Spectrum(3), 5));
    blocks.push(Block::blank());
    blocks.push(Block::title("Song".to_string()));
    blocks.push(Block::line("Artist".to_string(), Ink::Primary, 1));
    blocks.push(Block::new(BlockKind::Progress, 0));
    blocks
}

#[test]
fn layout_keeps_its_full_height_when_it_fits() {
    let mut blocks = layout();
    fit_blocks(&mut blocks, 7);
    assert_eq!(blocks_height(&blocks), 7);
}

#[test]
fn layout_sheds_decoration_before_content() {
    let mut blocks = layout();
    fit_blocks(&mut blocks, 5);
    assert_eq!(blocks_height(&blocks), 5);
    // The blank row goes first, then the spectrum shrinks a row at a time.
    assert!(!blocks.list.iter().any(|b| matches!(b.kind, BlockKind::Blank)));
    assert!(matches!(blocks.list[0].kind, BlockKind::Spectrum(2)));
    assert!(matches!(blocks.list.last().unwrap().kind, BlockKind::Progress));
}

#[test]
fn layout_never_drops_the_title_or_progress_bar() {
    let mut blocks = layout();
    fit_blocks(&mut blocks, 1);
    assert_eq!(blocks.list.len(), 2);
    assert!(matches!(blocks.list[0].kind, BlockKind::Line { bold: true, .. }));
    assert!(matches!(blocks.list[1].kind, BlockKind::Progress));
}

#[test]
fn layout_fits_whatever_height_has_room_for_the_essentials() {
    for height in 2..10 {
        let mut blocks = layout();
        fit_blocks(&mut blocks, height);
        assert!(blocks_height(&blocks) <= height);
        // Nothing goes that did not have to.
        assert_eq!(blocks_height(&blocks), height.min(7));
    }
}
