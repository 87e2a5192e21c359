use trash_targets::layout::{panes, Area, Panes, ACTION_ROWS};
use tui::layout::Rect;

fn area(rect: Rect) -> Area {
    Area { x: rect.x, y: rect.y, width: rect.width, height: rect.height }
}

#[test]
fn key_bindings_take_the_last_three_rows() {
    assert_eq!(ACTION_ROWS, 3);
    assert_eq!(
        panes(80, 24),
        Some(Panes {
            list: Area { x: 0, y: 0, width: 80, height: 21 },
            actions: Area { x: 0, y: 21, width: 80, height: 3 },
        })
    );
}

#[test]
fn lowest_screen_has_an_empty_list() {
    assert_eq!(
        panes(10, 3),
        Some(Panes {
            list: Area { x: 0, y: 0, width: 10, height: 0 },
            actions: Area { x: 0, y: 0, width: 10, height: 3 },
        })
    );
}

#[test]
fn screen_too_low_has_no_panes() {
    assert_eq!(panes(80, 2), None);
    assert_eq!(panes(80, 0), None);
    assert_eq!(panes(0, 1), None);
}

#[test]
fn screen_without_columns() {
    assert_eq!(
        panes(0, 10),
        Some(Panes {
            list: Area { x: 0, y: 0, width: 0, height: 7 },
            actions: Area { x: 0, y: 7, width: 0, height: 3 },
        })
    );
}

#[test]
fn largest_screen_that_fits_is_not_cut_down() {
    assert_eq!(
        panes(255, 257),
        Some(Panes {
            list: Area { x: 0, y: 0, width: 255, height: 254 },
            actions: Area { x: 0, y: 254, width: 255, height: 3 },
        })
    );
}

#[test]
fn screen_too_large_is_cut_down_as_the_rectangles_are() {
    for (width, height) in [(300u16, 300u16), (1000, 100), (u16::MAX, u16::MAX), (30000, 3)] {
        let list = Rect::new(0, 0, width, height - 3);
        let actions = Rect::new(0, list.height, width, 3);
        assert_eq!(
            panes(width, height),
            Some(Panes { list: area(list), actions: area(actions) })
        );
    }
    let cut = panes(300, 300).unwrap();
    assert!(cut.list.height < 297);
    assert_eq!(cut.actions.y, cut.list.height);
    assert_eq!(cut.actions.height, 3);
}
