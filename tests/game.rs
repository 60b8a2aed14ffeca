use cgol::{GameError, GameOfLife, GameOfLifeSettings, GameState};

fn live_cells(g: &GameState) -> Vec<(usize, usize)> {
    let (w, h) = g.get_dimensions();
    let mut live = Vec::new();
    for y in 0..h {
        for x in 0..w {
            if g.get_cell_state(x, y) {
                live.push((x, y));
            }
        }
    }
    live
}

fn game_from(text: &str) -> GameOfLife {
    GameOfLife::new(GameOfLifeSettings::from_text(text).unwrap())
}

#[test]
fn test_update_increments_iterations() {
    let settings = GameOfLifeSettings::new();
    let mut gol = GameOfLife::new(settings);
    assert_eq!(gol.current_iteration(), 0);

    gol.update();
    assert_eq!(gol.current_iteration(), 1);
}

#[test]
fn test_single_live_cell_dies() {
    let settings_result = GameOfLifeSettings::from_text("3,3\n1,1\n");
    if settings_result.is_err() {
        panic!("a single live cell should be a valid state");
    }
    let mut gol = GameOfLife::new(settings_result.unwrap());
    {
        let state = gol.get_state();
        assert!(state.get_cell_state(1, 1));
    }
    gol.update();
    {
        let state = gol.get_state();
        assert!(!state.get_cell_state(1, 1));
    }
}

#[test]
fn test_cell_with_two_neighbors_lives() {
    let settings_result = GameOfLifeSettings::from_text("3,3\n0,0\n1,1\n2,2\n");
    if settings_result.is_err() {
        panic!("a diagonal of three cells should be a valid state");
    }
    let mut gol = GameOfLife::new(settings_result.unwrap());
    {
        let state = gol.get_state();
        assert!(state.get_cell_state(0, 0));
        assert!(state.get_cell_state(1, 1));
        assert!(state.get_cell_state(2, 2));
    }
    gol.update();
    {
        let state = gol.get_state();
        assert!(!state.get_cell_state(0, 0));
        assert!(!state.get_cell_state(2, 2));
        assert!(state.get_cell_state(1, 1));
    }
}

#[test]
fn test_setting_initial_game_state_programmatically() {
    let settings = GameOfLifeSettings::new();
    assert_eq!((3, 3), settings.get_dimensions());
    let settings = settings.set_dimensions(10, 10);
    assert_eq!((10, 10), settings.get_dimensions());

    let settings = settings.set_live_cell(5, 5);
    let gol = GameOfLife::new(settings);
    assert!(gol.get_state().get_cell_state(5, 5));
}

#[test]
fn lib_test_create_game() {
    let gol = GameOfLife::new(GameOfLifeSettings::new());
    assert_eq!(gol.current_iteration(), 0);

    let mut gol = game_from("5,5\n1,0\n2,1\n0,2\n1,2\n2,2\n");
    gol.update();
    assert_eq!(gol.current_iteration(), 1);
}

#[test]
fn integration_test_test_create_game() {
    let settings = GameOfLifeSettings::new()
        .set_dimensions(50, 50)
        .set_live_cell(1, 0)
        .set_live_cell(2, 1)
        .set_live_cell(0, 2)
        .set_live_cell(1, 2)
        .set_live_cell(2, 2);

    let mut gol = GameOfLife::new(settings);
    assert_eq!(gol.current_iteration(), 0);

    gol.update();

    let current_state = gol.get_state();
    assert!(current_state.get_cell_state(0, 1));
    assert!(current_state.get_cell_state(2, 1));
    assert!(current_state.get_cell_state(1, 2));
    assert!(current_state.get_cell_state(2, 2));
    assert!(current_state.get_cell_state(1, 3));
}

#[test]
fn default_settings_are_three_by_three_dead() {
    let settings = GameOfLifeSettings::new();
    assert_eq!(settings.get_dimensions(), (3, 3));
    let gol = GameOfLife::new(settings);
    assert!(live_cells(gol.get_state()).is_empty());
}

#[test]
fn set_live_cell_off_board_changes_nothing() {
    let settings = GameOfLifeSettings::new().set_live_cell(1, 0).set_live_cell(3, 0);
    assert_eq!(settings.get_dimensions(), (3, 3));
    let gol = GameOfLife::new(settings);
    assert_eq!(live_cells(gol.get_state()), vec![(1, 0)]);
}

#[test]
fn settings_from_text_errors() {
    assert_eq!(GameOfLifeSettings::from_text("").err(), Some(GameError::EmptyInput));
    assert_eq!(GameOfLifeSettings::from_text("3,3\nbad").err(), Some(GameError::InvalidFormat));
    assert_eq!(GameOfLifeSettings::from_text("0,1").err(), Some(GameError::InvalidDimensions));
    assert_eq!(
        GameOfLifeSettings::from_text("3,3\n5,5").err(),
        Some(GameError::OutOfBounds { x: 5, y: 5, width: 3, height: 3 })
    );
}

#[test]
fn lone_cell_dies_leaving_empty_board() {
    let mut gol = game_from("3,3\n1,1");
    gol.update();
    assert!(live_cells(gol.get_state()).is_empty());
    assert_eq!(gol.get_state().get_dimensions(), (3, 3));
}

#[test]
fn block_is_still_life() {
    let mut gol = game_from("4,4\n1,1\n1,2\n2,1\n2,2");
    let expected = vec![(1, 1), (2, 1), (1, 2), (2, 2)];
    assert_eq!(live_cells(gol.get_state()), expected);
    gol.update();
    assert_eq!(live_cells(gol.get_state()), expected);
    gol.update();
    assert_eq!(live_cells(gol.get_state()), expected);
}

#[test]
fn glider_advances_one_phase() {
    let mut gol = game_from("5,5\n1,0\n2,1\n0,2\n1,2\n2,2");
    gol.update();
    assert_eq!(live_cells(gol.get_state()), vec![(0, 1), (2, 1), (1, 2), (2, 2), (1, 3)]);
}

#[test]
fn glider_translates_after_four_steps() {
    let mut gol = game_from("6,6\n1,0\n2,1\n0,2\n1,2\n2,2");
    for _ in 0..4 {
        gol.update();
    }
    assert_eq!(live_cells(gol.get_state()), vec![(2, 1), (3, 2), (1, 3), (2, 3), (3, 3)]);
}

#[test]
fn blinker_oscillates() {
    let mut gol = game_from("5,5\n1,2\n2,2\n3,2");
    gol.update();
    assert_eq!(live_cells(gol.get_state()), vec![(2, 1), (2, 2), (2, 3)]);
    gol.update();
    assert_eq!(live_cells(gol.get_state()), vec![(1, 2), (2, 2), (3, 2)]);
}

#[test]
fn overcrowded_cell_dies_and_dead_cell_with_three_is_born() {
    // a plus sign: the centre has four live neighbours
    let mut gol = game_from("3,3\n1,0\n0,1\n1,1\n2,1\n1,2");
    gol.update();
    let next = gol.get_state();
    assert!(!next.get_cell_state(1, 1));
    assert!(next.get_cell_state(0, 0));
    assert!(next.get_cell_state(2, 2));
}

#[test]
fn generation_counts_each_update() {
    let mut gol = game_from("4,4\n0,0");
    for n in 0..10u32 {
        assert_eq!(gol.current_iteration(), n);
        gol.update();
        assert_eq!(gol.current_iteration(), n + 1);
    }
}

#[test]
fn neighbor_counts_by_position_on_full_board() {
    let mut text = String::from("5,5");
    for y in 0..5 {
        for x in 0..5 {
            text.push_str(&format!("\n{},{}", x, y));
        }
    }
    let gol = game_from(&text);
    for y in 0..5usize {
        for x in 0..5usize {
            let x_edge = x == 0 || x == 4;
            let y_edge = y == 0 || y == 4;
            let expected = if x_edge && y_edge {
                3
            } else if x_edge || y_edge {
                5
            } else {
                8
            };
            assert_eq!(gol.get_number_of_live_neighbors(x, y), expected);
        }
    }
}

#[test]
fn neighbor_count_on_one_row_board() {
    let gol = game_from("3,1\n0,0\n1,0\n2,0");
    assert_eq!(gol.get_number_of_live_neighbors(0, 0), 1);
    assert_eq!(gol.get_number_of_live_neighbors(1, 0), 2);
    assert_eq!(gol.get_number_of_live_neighbors(2, 0), 1);
}
