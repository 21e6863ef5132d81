use tui_game::records::{
    load_lights_out_best, load_maze_escape_best, load_minesweeper_best, load_solitaire_best,
    load_sudoku_best, load_twenty_four_best_time,
};
use tui_game::stats::{LightsOutBest, MazeEscapeBest, MinesweeperBest, SolitaireBest, SudokuBest};
use tui_game::store::SaveStore;
use tui_game::value::JsonNode;

fn obj(members: &[(&str, JsonNode)]) -> JsonNode {
    JsonNode::Object(
        members
            .iter()
            .map(|(k, v)| (k.to_string(), copy(v)))
            .collect(),
    )
}

fn copy(j: &JsonNode) -> JsonNode {
    tui_game::value::copy_json(j)
}

fn store(members: Vec<(&str, JsonNode)>) -> SaveStore {
    SaveStore::from_members(&members.into_iter().map(|(k, v)| (k.to_string(), v)).collect())
}

#[test]
fn lights_out_needs_every_field() {
    let s = store(vec![(
        "lights_out_best",
        obj(&[("max_size", JsonNode::Int(5)), ("min_steps", JsonNode::Int(12)), ("min_time_sec", JsonNode::Int(30))]),
    )]);
    assert_eq!(load_lights_out_best(&s), Some(LightsOutBest { max_size: 5, min_steps: 12, min_time_sec: 30 }));
    let s = store(vec![("lights_out_best", obj(&[("max_size", JsonNode::Int(5))]))]);
    assert_eq!(load_lights_out_best(&s), None);
    let s = store(vec![(
        "lights_out_best",
        obj(&[("max_size", JsonNode::Int(-5)), ("min_steps", JsonNode::Int(12)), ("min_time_sec", JsonNode::Int(30))]),
    )]);
    assert_eq!(load_lights_out_best(&s), None);
}

#[test]
fn minesweeper_and_maze_defaults() {
    let s = store(vec![
        ("minesweeper_best", obj(&[("2", JsonNode::Int(40))])),
        ("maze_escape_best", obj(&[("max_area", JsonNode::Int(100)), ("max_mode", JsonNode::Int(2))])),
    ]);
    assert_eq!(
        load_minesweeper_best(&s),
        Some(MinesweeperBest { d1_min_time_sec: None, d2_min_time_sec: Some(40), d3_min_time_sec: None })
    );
    assert_eq!(
        load_maze_escape_best(&s),
        Some(MazeEscapeBest { max_area: 100, max_cols: 0, max_rows: 0, max_mode: 2, min_time_sec: None })
    );
}

#[test]
fn solitaire_prefers_new_format() {
    let s = store(vec![(
        "solitaire_best_v2",
        obj(&[
            ("freecell", JsonNode::Int(0)),
            ("spider1", JsonNode::Int(90)),
            ("spider3", JsonNode::Int(70)),
        ]),
    )]);
    assert_eq!(
        load_solitaire_best(&s),
        Some(SolitaireBest { freecell_min_time_sec: None, klondike_min_time_sec: None, spider_min_time_sec: Some(70) })
    );
    let s = store(vec![("solitaire_best", obj(&[("foundation", JsonNode::Int(50)), ("tableau", JsonNode::Int(60))]))]);
    assert_eq!(
        load_solitaire_best(&s),
        Some(SolitaireBest { freecell_min_time_sec: Some(50), klondike_min_time_sec: Some(60), spider_min_time_sec: None })
    );
}

#[test]
fn sudoku_and_twenty_four() {
    let s = store(vec![
        ("sudoku_best", obj(&[("d", JsonNode::Int(3)), ("t", JsonNode::Int(200))])),
        ("twenty_four_best_time", obj(&[("best_time_sec", JsonNode::Int(15))])),
    ]);
    assert_eq!(load_sudoku_best(&s), Some(SudokuBest { difficulty: 3, min_time_sec: 200 }));
    assert_eq!(load_twenty_four_best_time(&s), Some(15));
    let s = store(vec![
        ("sudoku_best", obj(&[("difficulty", JsonNode::Int(9)), ("min_time_sec", JsonNode::Int(200))])),
        ("twenty_four_best_time", JsonNode::Int(0)),
    ]);
    assert_eq!(load_sudoku_best(&s), None);
    assert_eq!(load_twenty_four_best_time(&s), None);
}
