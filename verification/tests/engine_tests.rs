use gailibrary::engine::automaton::{get_id, wrap, Automaton, Board, Neighborhood};
use gailibrary::examples::game_of_life::GameOfLife;
use gailibrary::examples::langtons_ant::LangtonsAnt;
use gailibrary::fields::{Dir2D, Pos2D};
use gailibrary::langtonsant::lant::LAnt;
use gailibrary::langtonsant::visualisation::{characters, to_char, Visualisation};

fn colours(auto: &Automaton<LangtonsAnt>) -> Vec<usize> {
    let mut keys = Vec::new();
    let mut it = auto.board_iter();
    while let Some((key, cell)) = it.next() {
        if cell.color {
            keys.push(key);
        }
    }
    keys
}

fn ants(auto: &Automaton<LangtonsAnt>) -> Vec<(usize, Dir2D)> {
    let mut found = Vec::new();
    let mut it = auto.board_iter();
    while let Some((key, cell)) = it.next() {
        if let Some(dir) = cell.dir {
            found.push((key, dir));
        }
    }
    found
}

fn live_keys(auto: &Automaton<GameOfLife>) -> Vec<usize> {
    let mut keys = Vec::new();
    let mut it = auto.board_iter();
    while let Some((key, cell)) = it.next() {
        if cell.life {
            keys.push(key);
        }
    }
    keys
}

#[test]
fn wrap_folds_into_the_board() {
    assert_eq!(wrap(0, 10), 0);
    assert_eq!(wrap(9, 10), 9);
    assert_eq!(wrap(10, 10), 0);
    assert_eq!(wrap(-1, 10), 9);
    assert_eq!(wrap(-10, 10), 0);
    assert_eq!(wrap(-11, 10), 9);
    assert_eq!(wrap(i64::MIN, 10), 2);
    assert_eq!(wrap(i64::MAX, 10), 7);
    assert_eq!(wrap(-3, 1), 0);
}

#[test]
fn flat_key_is_column_times_side_plus_row() {
    assert_eq!(get_id(5, &Pos2D::new(2, 3)), 13);
    assert_eq!(get_id(5, &Pos2D::new(-1, -1)), 24);
    assert_eq!(get_id(5, &Pos2D::new(5, 7)), 2);
    assert_eq!(Board::<GameOfLife>::pos2id(10, &Pos2D::new(9, 0)), 90);
}

#[test]
fn right_neighbour_wraps_around() {
    let board = Board::<GameOfLife>::new(10);
    let edge = Pos2D::new(9, 0);
    let right = edge.move_by_one(Dir2D::Right);
    assert_eq!(board.find_cell(&right).pos, Pos2D::new(0, 0));
    assert_eq!(board.neumann(&edge).right.pos, Pos2D::new(0, 0));
    assert_eq!(board.neumann(&edge).up.pos, Pos2D::new(9, 9));
    assert_eq!(board.neumann(&edge).down.pos, Pos2D::new(9, 1));
    assert_eq!(board.neumann(&edge).left.pos, Pos2D::new(8, 0));
}

#[test]
fn neighbours_at_the_end_of_the_number_line() {
    let board = Board::<GameOfLife>::new(10);
    let far = Pos2D::new(i64::MAX, i64::MIN);
    // i64::MAX folds to 7 and i64::MIN to 2
    assert_eq!(board.find_cell(&far).pos, Pos2D::new(7, 2));
    assert_eq!(board.neumann(&far).right.pos, Pos2D::new(8, 2));
    assert_eq!(board.neumann(&far).up.pos, Pos2D::new(7, 1));
}

#[test]
fn moore_goes_clockwise_from_above() {
    let board = Board::<GameOfLife>::new(4);
    let near = board.moore(&Pos2D::new(0, 0));
    let places: Vec<(i64, i64)> = near.iter().map(|c| (c.pos.x, c.pos.y)).collect();
    assert_eq!(
        places,
        vec![(0, 3), (1, 3), (1, 0), (1, 1), (0, 1), (3, 1), (3, 0), (3, 3)]
    );
}

#[test]
fn new_board_holds_a_fresh_cell_everywhere() {
    let board = Board::<GameOfLife>::new(3);
    assert_eq!(board.dim(), 3);
    let mut it = board.iter();
    let mut count = 0;
    while let Some((key, cell)) = it.next() {
        assert_eq!(key, count);
        assert_eq!(cell.pos, Pos2D::new((key / 3) as i64, (key % 3) as i64));
        assert!(!cell.life);
        count += 1;
    }
    assert_eq!(count, 9);
    let none = Board::<GameOfLife>::new(0);
    assert_eq!(none.iter().next(), None);
}

#[test]
fn a_board_whose_cells_stay_is_a_fixed_point() {
    // without an ant no cell of this board changes
    let board = Board::<LangtonsAnt>::new(4);
    let painted = board.copy_and_update_one(&LangtonsAnt {
        color: true,
        dir: None,
        pos: Pos2D::new(1, 2),
    });
    let next = painted.update();
    let mut before = painted.iter();
    let mut after = next.iter();
    let mut count = 0;
    loop {
        let a = before.next();
        let b = after.next();
        assert_eq!(a, b);
        if a.is_none() {
            break;
        }
        count += 1;
    }
    assert_eq!(count, 16);
}

#[test]
fn copy_and_update_overwrites_by_position() {
    let board = Board::<GameOfLife>::new(3);
    let cells = [
        GameOfLife { life: true, pos: Pos2D::new(0, 1) },
        GameOfLife { life: false, pos: Pos2D::new(3, 1) },
        GameOfLife { life: true, pos: Pos2D::new(-1, -1) },
    ];
    let changed = board.copy_and_update(&cells);
    // (0, 1) and (3, 1) are the same place: the later cell stays
    assert_eq!(*changed.find_cell(&Pos2D::new(0, 1)), cells[1]);
    assert_eq!(*changed.find_cell(&Pos2D::new(2, 2)), cells[2]);
    assert!(!changed.find_cell(&Pos2D::new(1, 1)).life);
    assert!(!board.find_cell(&Pos2D::new(2, 2)).life);
}

#[test]
fn a_change_is_there_after_next_and_the_cells_around_have_seen_it() {
    let mut auto = Automaton::<LangtonsAnt>::new(4);
    auto.add_change(&LangtonsAnt::new_ant(&Pos2D::new(1, 1)));
    // staged only: the board is as it was
    assert!(ants(&auto).is_empty());
    assert!(colours(&auto).is_empty());

    auto.next();
    // the change went in before the step: the staged cell has lost its
    // colour under the ant, and the cell above has seen the ant and taken it
    assert!(colours(&auto).is_empty());
    assert_eq!(ants(&auto), vec![(get_id(4, &Pos2D::new(1, 0)), Dir2D::Right)]);

    auto.next();
    assert_eq!(colours(&auto), vec![get_id(4, &Pos2D::new(1, 0))]);
    assert_eq!(ants(&auto), vec![(get_id(4, &Pos2D::new(2, 0)), Dir2D::Down)]);
}

#[test]
fn apply_changes_puts_the_staged_cells_in_without_a_step() {
    let mut auto = Automaton::<GameOfLife>::new(4);
    auto.add_change(&GameOfLife { life: false, pos: Pos2D::new(5, 0) });
    auto.add_change(&GameOfLife::new_life(&Pos2D::new(1, 0)));
    auto.apply_changes();
    let key_self = get_id(4, &Pos2D::new(1, 0));
    assert_eq!(live_keys(&auto), vec![key_self]);
    // what is read at the place is the staged cell itself
    let mut it = auto.board_iter();
    while let Some((key, c)) = it.next() {
        if key == key_self {
            assert_eq!(*c, GameOfLife::new_life(&Pos2D::new(1, 0)));
        }
    }
    // nothing is staged any more
    auto.apply_changes();
    assert_eq!(live_keys(&auto), vec![key_self]);
    assert_eq!(auto.dim(), 4);
}

#[test]
fn transform_replaces_the_board() {
    let mut auto = Automaton::<GameOfLife>::new(3);
    auto.transform(|board| board.copy_and_update_one(&GameOfLife::new_life(&Pos2D::new(2, 2))));
    assert_eq!(live_keys(&auto), vec![8]);
}

#[test]
fn blinker_turns() {
    let mut auto = Automaton::<GameOfLife>::new(5);
    for column in 1..4 {
        auto.add_change(&GameOfLife::new_life(&Pos2D::new(column, 2)));
    }
    auto.next();
    let upright = vec![
        get_id(5, &Pos2D::new(2, 1)),
        get_id(5, &Pos2D::new(2, 2)),
        get_id(5, &Pos2D::new(2, 3)),
    ];
    assert_eq!(live_keys(&auto), upright);
    auto.next();
    let level = vec![
        get_id(5, &Pos2D::new(1, 2)),
        get_id(5, &Pos2D::new(2, 2)),
        get_id(5, &Pos2D::new(3, 2)),
    ];
    assert_eq!(live_keys(&auto), level);
}

#[test]
fn a_lonely_live_cell_dies_and_a_block_stays() {
    let mut auto = Automaton::<GameOfLife>::new(6);
    auto.add_change(&GameOfLife::new_life(&Pos2D::new(0, 0)));
    auto.next();
    assert!(live_keys(&auto).is_empty());
    for (x, y) in [(2, 2), (2, 3), (3, 2), (3, 3)] {
        auto.add_change(&GameOfLife::new_life(&Pos2D::new(x, y)));
    }
    auto.next();
    assert_eq!(live_keys(&auto).len(), 4);
    auto.next();
    assert_eq!(
        live_keys(&auto),
        vec![
            get_id(6, &Pos2D::new(2, 2)),
            get_id(6, &Pos2D::new(2, 3)),
            get_id(6, &Pos2D::new(3, 2)),
            get_id(6, &Pos2D::new(3, 3)),
        ]
    );
}

#[test]
fn langtons_ant() {
    let dim = 10;
    let mut auto = Automaton::<LangtonsAnt>::new(dim);
    let ant_pos = Pos2D::new(5, 5);
    auto.add_change(&LangtonsAnt::new_ant(&ant_pos));
    auto.apply_changes();
    for _i in 0..10 {
        auto.next();
        let mut ants = 0;
        let mut it = auto.board_iter();
        while let Some((_, cell)) = it.next() {
            if cell.dir.is_some() {
                ants += 1;
            }
        }
        assert_eq!(ants, 1);
    }
}

#[test]
fn the_ant_steps_up_and_turns() {
    let mut auto = Automaton::<LangtonsAnt>::new(10);
    auto.add_change(&LangtonsAnt::new_ant(&Pos2D::new(5, 5)));
    auto.next();
    // the ant is seen below by the cell above, which has no colour: it turns left from `Down`
    assert_eq!(ants(&auto), vec![(get_id(10, &Pos2D::new(5, 4)), Dir2D::Right)]);
    // the cell it left has lost its colour
    assert!(colours(&auto).is_empty());
}

#[test]
fn find_takes_the_first_neighbour_in_visiting_order() {
    let board = Board::<LangtonsAnt>::new(5);
    let ant_left = LangtonsAnt { color: false, dir: Some(Dir2D::Up), pos: Pos2D::new(1, 2) };
    let ant_down = LangtonsAnt { color: true, dir: Some(Dir2D::Down), pos: Pos2D::new(2, 3) };
    let board = board.copy_and_update(&[ant_left, ant_down]);
    let near = board.neumann(&Pos2D::new(2, 2));
    assert_eq!(near.at(Dir2D::Left), ant_left);
    assert_eq!(near.at(Dir2D::Down), ant_down);
    let found = near.find(|_d, c| c.dir.is_some());
    assert_eq!(found, Some((Dir2D::Down, ant_down)));
    let found = near.find(|d, _c| d == Dir2D::Left);
    assert_eq!(found, Some((Dir2D::Left, ant_left)));
    assert_eq!(near.find(|_d, c| c.pos.x > 7), None);
}

#[test]
fn a_board_of_ants_as_characters() {
    let board = Board::<LangtonsAnt>::new(3);
    let board = board.copy_and_update(&[
        LangtonsAnt { color: true, dir: None, pos: Pos2D::new(0, 1) },
        LangtonsAnt { color: false, dir: Some(Dir2D::Up), pos: Pos2D::new(1, 0) },
        LangtonsAnt { color: true, dir: Some(Dir2D::Right), pos: Pos2D::new(1, 1) },
        LangtonsAnt { color: false, dir: Some(Dir2D::Down), pos: Pos2D::new(2, 0) },
        LangtonsAnt { color: false, dir: Some(Dir2D::Left), pos: Pos2D::new(2, 2) },
    ]);
    let (chars, dim) = board.grid();
    assert_eq!(dim, 3);
    assert_eq!(chars, vec!['_', 'X', '_', '<', 'v', '_', '>', '_', '^']);
    assert_eq!(to_char(true, Some(Dir2D::Up)), '<');
    assert_eq!(to_char(true, None), 'X');
    assert_eq!(to_char(false, None), '_');
}

#[test]
fn change_one_changes_the_cell_at_the_position() {
    let board = Board::<GameOfLife>::new(3);
    let at = Pos2D::new(1, 2);
    let changed = board.change_one(&at, |c| GameOfLife::new_life(&c.pos));
    let mut it = changed.iter();
    while let Some((key, cell)) = it.next() {
        assert_eq!(cell.life, key == get_id(3, &at));
        assert_eq!(cell.pos, Pos2D::new((key / 3) as i64, (key % 3) as i64));
    }
    // a position off the board is not looked for at its wrapped place
    let same = board.change_one(&Pos2D::new(4, 2), |c| GameOfLife::new_life(&c.pos));
    let mut it = same.iter();
    while let Some((_, cell)) = it.next() {
        assert!(!cell.life);
    }
}

#[test]
fn exists_cell_asks_the_cell_with_the_key() {
    let board = Board::<GameOfLife>::new(3);
    let board = board.copy_and_update_one(&GameOfLife::new_life(&Pos2D::new(1, 1)));
    assert!(board.exists_cell(4, |c| c.life));
    assert!(!board.exists_cell(5, |c| c.life));
    assert!(board.exists_cell(8, |c| !c.life));
    assert!(!board.exists_cell(9, |_c| true));
}

#[test]
fn the_other_ant_turns_the_other_way() {
    let mut auto = Automaton::<LAnt>::new(10);
    auto.add_change(&LAnt::new_ant(&Pos2D::new(5, 5)));
    auto.next();
    let mut found = Vec::new();
    let mut it = auto.board_iter();
    while let Some((key, cell)) = it.next() {
        if let Some(dir) = cell.dir {
            found.push((key, dir));
        }
        assert!(!cell.color);
    }
    // seen below by the cell above, which has no colour: it turns right from `Down`
    assert_eq!(found, vec![(get_id(10, &Pos2D::new(5, 4)), Dir2D::Left)]);
    let (chars, dim) = auto.board().grid();
    assert_eq!(dim, 10);
    assert_eq!(chars.iter().filter(|c| **c == '^').count(), 1);
    assert_eq!(chars.iter().filter(|c| **c == '_').count(), 99);
    assert_eq!(chars[get_id(10, &Pos2D::new(5, 4))], '^');
    let marks = characters(auto.board(), |c| if c.dir.is_some() { 'a' } else { '.' });
    assert_eq!(marks.iter().filter(|c| **c == 'a').count(), 1);
}

#[test]
fn a_clone_goes_its_own_way() {
    let mut auto = Automaton::<GameOfLife>::new(5);
    for column in 1..4 {
        auto.add_change(&GameOfLife::new_life(&Pos2D::new(column, 2)));
    }
    let mut twin = auto.clone();
    auto.next();
    assert_eq!(live_keys(&auto).len(), 3);
    assert!(live_keys(&twin).is_empty());
    twin.apply_changes();
    assert_eq!(
        live_keys(&twin),
        vec![
            get_id(5, &Pos2D::new(1, 2)),
            get_id(5, &Pos2D::new(2, 2)),
            get_id(5, &Pos2D::new(3, 2)),
        ]
    );
    let board = twin.board().clone();
    assert_eq!(board.dim(), 5);
    assert!(board.find_cell(&Pos2D::new(2, 2)).life);
    let none = Automaton::<GameOfLife>::default();
    assert_eq!(none.dim(), 0);
    assert_eq!(none.board_iter().next(), None);
    assert_eq!(Board::<GameOfLife>::default().dim(), 0);
}
