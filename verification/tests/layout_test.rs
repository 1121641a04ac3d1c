use rustyray::layout::{border_levels, grid_cells, view_layout, BorderLevel, GridCell, ViewLayout};
use rustyray::options::RenderingOpts;

#[test]
fn test_split_view_port() {
    let cells = grid_cells(3, 3);
    assert_eq!(cells.len(), 9);
    let mut k = 0;
    for col in 0u8..3 {
        for row in 0u8..3 {
            assert_eq!(cells[k], GridCell { col, row });
            k += 1;
        }
    }
}

#[test]
fn grid_cells_rectangular() {
    let cells = grid_cells(2, 3);
    assert_eq!(
        cells,
        vec![
            GridCell { col: 0, row: 0 },
            GridCell { col: 0, row: 1 },
            GridCell { col: 0, row: 2 },
            GridCell { col: 1, row: 0 },
            GridCell { col: 1, row: 1 },
            GridCell { col: 1, row: 2 },
        ]
    );
    assert!(grid_cells(0, 4).is_empty());
    assert!(grid_cells(4, 0).is_empty());
    assert_eq!(grid_cells(1, 1), vec![GridCell { col: 0, row: 0 }]);
}

#[test]
fn border_levels_nested() {
    assert_eq!(border_levels(1), vec![BorderLevel { level: 0, border: false }]);
    assert_eq!(
        border_levels(3),
        vec![
            BorderLevel { level: 0, border: true },
            BorderLevel { level: 1, border: true },
            BorderLevel { level: 2, border: false },
        ]
    );
    assert_eq!(border_levels(255).len(), 255);
}

#[test]
fn layout_follows_options() {
    let mut o = RenderingOpts::default();
    o.split = 4;
    assert_eq!(view_layout(&o), ViewLayout::Grid { x_split: 4, y_split: 4 });
    o.bordering_split = true;
    assert_eq!(
        view_layout(&o),
        ViewLayout::Bordered { levels: 4, texture_w: 16, texture_h: 16 }
    );
}

#[test]
fn layout_zone_counts() {
    for split in 1u8..=20 {
        let grid = RenderingOpts { split, ..RenderingOpts::default() };
        match view_layout(&grid) {
            ViewLayout::Grid { x_split, y_split } => {
                assert_eq!(grid_cells(x_split, y_split).len(), split as usize * split as usize)
            }
            _ => panic!("expected a grid"),
        }
        let rings = RenderingOpts { split, bordering_split: true, ..RenderingOpts::default() };
        match view_layout(&rings) {
            ViewLayout::Bordered { levels, .. } => {
                let l = border_levels(levels);
                assert_eq!(l.len(), split as usize);
                assert_eq!(l.iter().filter(|b| !b.border).count(), 1);
                assert!(!l[l.len() - 1].border);
            }
            _ => panic!("expected rings"),
        }
    }
}
