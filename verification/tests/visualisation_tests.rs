use gailibrary::examples::game_of_life::GameOfLife;
use gailibrary::examples::langtons_ant::LangtonsAnt;
use gailibrary::fields::{Dir2D, Pos2D, RGB};
use gailibrary::visualisation::{CellRectangle, CellVisualisation, MainState};

#[test]
fn cells_show_as_squares() {
    let at = Pos2D::new(2, 3);
    assert_eq!(
        GameOfLife::new_cell(&at).cell_to_rectangle(),
        CellRectangle { position: at, color: RGB::black() }
    );
    assert_eq!(
        GameOfLife { life: false, pos: at }.cell_to_rectangle(),
        CellRectangle { position: at, color: RGB::white() }
    );
    assert_eq!(LangtonsAnt::new_cell(&at), LangtonsAnt::new_ant(&at));
    assert_eq!(LangtonsAnt::new_cell(&at).cell_to_rectangle().color, RGB::red());
    assert_eq!(
        LangtonsAnt { color: true, dir: None, pos: at }.cell_to_rectangle().color,
        RGB::black()
    );
    assert_eq!(
        LangtonsAnt { color: false, dir: None, pos: at }.cell_to_rectangle().color,
        RGB::white()
    );
    assert_eq!(
        LangtonsAnt { color: false, dir: Some(Dir2D::Left), pos: at }.cell_to_rectangle().color,
        RGB::red()
    );
}

#[test]
fn the_first_tick_leaves_the_board_as_it_was_set_up() {
    let mut state = MainState::<GameOfLife>::new(800, 5);
    for column in 1..4 {
        state.add(&Pos2D::new(column, 2));
    }
    assert!(state.auto2cells().is_empty());
    state.tick();
    // staged only
    assert!(state.auto2cells().is_empty());
    state.tick();
    let places: Vec<Pos2D> = state.auto2cells().iter().map(|s| s.position).collect();
    assert_eq!(places, vec![Pos2D::new(2, 1), Pos2D::new(2, 2), Pos2D::new(2, 3)]);
    assert!(state.auto2cells().iter().all(|s| s.color == RGB::black()));
}

#[test]
fn a_click_pauses_and_puts_a_cell_on_the_board() {
    let mut state = MainState::<GameOfLife>::new(100, 10);
    assert!(state.wants_draw());
    assert_eq!(state.pixels2pos(35, 99), Pos2D::new(3, 9));
    let at = state.click(35, 99);
    assert_eq!(at, Pos2D::new(3, 9));
    assert!(!state.wants_draw());
    let squares = state.auto2cells();
    assert_eq!(squares, vec![CellRectangle { position: at, color: RGB::black() }]);
    // paused: a tick changes nothing
    state.tick();
    assert_eq!(state.auto2cells(), squares);
    state.key_up(false);
    assert!(!state.wants_draw());
    state.key_up(true);
    assert!(state.wants_draw());
    state.key_up(true);
    assert!(!state.wants_draw());
}
