use croissant::grid::Grid;
use croissant::variables::{Variables, CELL_VALUE_COUNT};

fn variables_3x3(word_count: usize) -> Variables {
    let grid = Grid::from("...\n...\n...").unwrap();
    Variables::new(grid, word_count)
}

#[test]
fn representing_cell() {
    let variables = variables_3x3(100_000 /* does not matter here */);

    assert_eq!(1, variables.representing_cell(0, 0, 0));
    assert_eq!(2, variables.representing_cell(0, 0, 1));
    assert_eq!(27, variables.representing_cell(0, 0, 26));

    assert_eq!(28, variables.representing_cell(0, 1, 0));
    assert_eq!(29, variables.representing_cell(0, 1, 1));
    assert_eq!(54, variables.representing_cell(0, 1, 26));

    assert_eq!(243, variables.representing_cell(2, 2, 26))
}

#[test]
fn representing_slot() {
    let variables = variables_3x3(100_000);

    assert_eq!(244, variables.representing_slot(0, 0));
    assert_eq!(245, variables.representing_slot(0, 1));
    assert_eq!(100_243, variables.representing_slot(0, 99_999));

    assert_eq!(100_244, variables.representing_slot(1, 0));
    assert_eq!(100_245, variables.representing_slot(1, 1));

    assert_eq!(600_243, variables.representing_slot(5, 99_999));
}

#[test]
fn cell() {
    let variables = variables_3x3(100_000 /* does not matter here */);

    assert_eq!(1, variables.cell(0, 0, 0));
    assert_eq!(2, variables.cell(0, 0, 1));
    assert_eq!(27, variables.cell(0, 0, 26));

    assert_eq!(28, variables.cell(0, 1, 0));
    assert_eq!(29, variables.cell(0, 1, 1));
    assert_eq!(54, variables.cell(0, 1, 26));

    assert_eq!(243, variables.cell(2, 2, 26))
}

#[test]
fn slot() {
    let variables = variables_3x3(100_000);

    assert_eq!(244, variables.slot(0, 0));
    assert_eq!(245, variables.slot(0, 1));
    assert_eq!(100_243, variables.slot(0, 99_999));

    assert_eq!(100_244, variables.slot(1, 0));
    assert_eq!(100_245, variables.slot(1, 1));

    assert_eq!(600_243, variables.slot(5, 99_999));
}

#[test]
fn representing_cells() {
    let variables = variables_3x3(1);
    let cells = variables.representing_cells();
    assert_eq!(243, cells.len());
    assert_eq!(1, cells[0]);
    assert_eq!(243, cells[242]);
}

#[test]
fn representing_cell_count() {
    let variables = variables_3x3(100_000 /* does not matter here */);
    assert_eq!(243, variables.representing_cell_count());
}

#[test]
fn representing_slot_count() {
    let variables = variables_3x3(100_000);
    assert_eq!(600_000, variables.representing_slot_count());
}

#[test]
fn cell_count() {
    let variables = variables_3x3(100_000 /* does not matter here */);
    assert_eq!(243, variables.representing_cell_count());
}

#[test]
fn slot_count() {
    let variables = variables_3x3(100_000);
    assert_eq!(600_000, variables.representing_slot_count());
}

#[test]
fn count() {
    let variables = variables_3x3(100_000);
    assert_eq!(600_243, variables.count());
}

#[test]
fn back_to_domain() {
    let grid = Grid::from("...\n.#.\n...").unwrap();
    let variables = Variables::new(grid, 1);
    let mut model = vec![];
    for _cell in 0..3 {
        model.push(1); // state of variable 'A' for the current cell
        for _variable in 1..CELL_VALUE_COUNT {
            model.push(-1) // states of variable 'B' to '#' for the current cell
        }
    }
    model.push(-1); // state of variable 'A' for the cell 4
    model.push(1); // state of variable 'B' for the cell 4
    for _variable in 2..CELL_VALUE_COUNT {
        model.push(-1) // states of variable 'C' to '#' for the cell 4
    }
    for _variable in 0..(CELL_VALUE_COUNT - 1) {
        model.push(-1) // states of variable 'A' to 'Z' for the cell 5
    }
    model.push(1); // state of variable '#' for the cell 5
    model.push(-1); // state of variable 'A' for the cell 6
    model.push(1); // state of variable 'B' for the cell 6
    for _variable in 2..CELL_VALUE_COUNT {
        model.push(-1) // states of variable 'C' to '#' for the cell 6
    }
    for _cell in 5..9 {
        model.push(-1); // state of variable 'A' for the current cell
        model.push(-1); // state of variable 'B' for the current cell
        model.push(1); // state of variable 'C' for the current cell
        for _variable in 3..CELL_VALUE_COUNT {
            model.push(-1) // states of variable 'D' to '#' for the current cell
        }
    }

    let solved_grid = variables.back_to_domain(&model);

    assert_eq!("AAA\nB#B\nCCC", solved_grid);
}

#[test]
fn back_to_domain_single_row() {
    let grid = Grid::from("...").unwrap();
    let variables = Variables::new(grid, 1);
    let mut model = vec![];
    for _cell in 0..3 {
        model.push(1); // state of variable 'A' for the current cell
        for _variable in 1..CELL_VALUE_COUNT {
            model.push(-1) // states of variable 'B' to '#' for the current cell
        }
    }

    let solved_grid = variables.back_to_domain(&model);

    assert_eq!("AAA", solved_grid);
}

#[test]
fn model_covers_cells() {
    let grid = Grid::from("..").unwrap();
    let variables = Variables::new(grid, 0);
    let mut model = vec![0; 54];
    assert_eq!(false, variables.model_covers_cells(&model));
    model[3] = 1;
    assert_eq!(false, variables.model_covers_cells(&model));
    model[27] = 1;
    assert_eq!(true, variables.model_covers_cells(&model));
    let short = vec![1; 53];
    assert_eq!(false, variables.model_covers_cells(&short));
}

#[test]
fn variables_count() {
    let variables = variables_3x3(100_000);
    assert_eq!(600_243, variables.count());
}

#[test]
fn variables_back_to_domain() {
    let grid = Grid::from("...").unwrap();
    let variables = Variables::new(grid, 1);
    let mut model = vec![];
    for _cell in 0..3 {
        model.push(1); // state of variable 'A' for the current cell
        for _variable in 1..CELL_VALUE_COUNT {
            model.push(-1) // states of variable 'A' to '#' for the current cell
        }
    }

    let solved_grid = variables.back_to_domain(&model);

    assert_eq!("AAA", solved_grid);
}
